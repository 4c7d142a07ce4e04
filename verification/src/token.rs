//! Correlation tokens. Every outbound fetch carries a token that the
//! transport returns verbatim with the response; decoding it routes the
//! reply. A token is either `InLine` — the reply is the whole batch of a
//! delegated sub-crawl — or `Callback` with the url and depth of one
//! page fetch. The wire shape is a tagged JSON value,
//! `{"Inline":null}` or `{"Callback":{"url":<string>,"depth":<uint>}}`,
//! and encoding then decoding is proved lossless.

use vstd::prelude::*;

use crate::codec::dec_digits;
use crate::codec::dec_val;
use crate::codec::encode_u32;
use crate::codec::esc;
use crate::codec::is_digit;
use crate::codec::lemma_p_number_of_digits;
use crate::codec::lemma_p_string_esc;
use crate::codec::match_lit;
use crate::codec::p_number;
use crate::codec::p_string;
use crate::codec::append_escaped;
use crate::codec::parse_string_body;
use crate::codec::parse_u32;
use crate::extract::starts_with;

verus! {

/// One crawl task: a url and the depth at which it was discovered.
pub struct ScrapingParams {
    pub url: String,
    pub depth: u32,
}

/// The mathematical value of a `ScrapingParams`.
pub struct ParamsView {
    pub url: Seq<char>,
    pub depth: nat,
}

impl View for ScrapingParams {
    type V = ParamsView;

    open spec fn view(&self) -> ParamsView {
        ParamsView { url: self.url@, depth: self.depth as nat }
    }
}

impl ScrapingParams {
    /// A copy with the same url and depth.
    pub fn duplicate(&self) -> (r: ScrapingParams)
        ensures
            r@ == self@,
    {
        ScrapingParams { url: self.url.clone(), depth: self.depth }
    }
}

/// The tag of a fetch: either the single eventual reply of a delegated
/// sub-crawl, or the reply to one page fetch with its task attached.
pub enum ScrapeContext {
    InLine,
    Callback(ScrapingParams),
}

/// The mathematical value of a `ScrapeContext`.
pub enum TokenView {
    InLine,
    Callback(ParamsView),
}

impl View for ScrapeContext {
    type V = TokenView;

    open spec fn view(&self) -> TokenView {
        match self {
            ScrapeContext::InLine => TokenView::InLine,
            ScrapeContext::Callback(p) => TokenView::Callback(p@),
        }
    }
}

// ---------------------------------------------------------------------
// Wire shape
// ---------------------------------------------------------------------

pub open spec fn inline_text() -> Seq<char> {
    seq!['{', '"', 'I', 'n', 'l', 'i', 'n', 'e', '"', ':', 'n', 'u', 'l', 'l', '}']
}

pub open spec fn callback_open() -> Seq<char> {
    seq!['{', '"', 'C', 'a', 'l', 'l', 'b', 'a', 'c', 'k', '"', ':']
}

pub open spec fn params_open() -> Seq<char> {
    seq!['{', '"', 'u', 'r', 'l', '"', ':', '"']
}

pub open spec fn depth_key() -> Seq<char> {
    seq![',', '"', 'd', 'e', 'p', 't', 'h', '"', ':']
}

/// The wire text of a task object: `{"url":"<escaped>","depth":<n>}`.
pub open spec fn spec_encode_params(p: ParamsView) -> Seq<char> {
    params_open() + esc(p.url) + seq!['"'] + depth_key() + dec_digits(p.depth) + seq!['}']
}

/// The wire text of a token.
pub open spec fn spec_encode_token(t: TokenView) -> Seq<char> {
    match t {
        TokenView::InLine => inline_text(),
        TokenView::Callback(p) => callback_open() + spec_encode_params(p) + seq!['}'],
    }
}

/// Reads one task object from the front of `s`; returns it and the rest.
/// The depth must fit in `u32`.
pub open spec fn p_params(s: Seq<char>) -> Option<(ParamsView, Seq<char>)> {
    if starts_with(s, params_open()) {
        match p_string(s.skip(8)) {
            None => None,
            Some((url, r1)) => {
                if starts_with(r1, depth_key()) {
                    match p_number(r1.skip(9)) {
                        None => None,
                        Some((d, r2)) => {
                            if r2.len() >= 1 && r2[0] == '}' && d <= u32::MAX {
                                Some((ParamsView { url, depth: d }, r2.drop_first()))
                            } else {
                                None
                            }
                        },
                    }
                } else {
                    None
                }
            },
        }
    } else {
        None
    }
}

/// A whole message that is exactly one task object.
pub open spec fn spec_decode_params(s: Seq<char>) -> Option<ParamsView> {
    match p_params(s) {
        None => None,
        Some((p, rest)) => if rest.len() == 0 {
            Some(p)
        } else {
            None
        },
    }
}

/// A whole message that is exactly one token.
pub open spec fn spec_decode_token(s: Seq<char>) -> Option<TokenView> {
    if s == inline_text() {
        Some(TokenView::InLine)
    } else if starts_with(s, callback_open()) {
        match p_params(s.skip(12)) {
            None => None,
            Some((p, rest)) => if rest == seq!['}'] {
                Some(TokenView::Callback(p))
            } else {
                None
            },
        }
    } else {
        None
    }
}

// ---------------------------------------------------------------------
// Round trips
// ---------------------------------------------------------------------

/// Encoding a task object and reading it back returns the task, with
/// whatever follows untouched.
pub proof fn lemma_p_params_of_encoding(p: ParamsView, rest: Seq<char>)
    requires
        p.depth <= u32::MAX,
        rest.len() > 0 ==> !is_digit(rest[0]),
    ensures
        p_params(spec_encode_params(p) + rest) == Some::<(ParamsView, Seq<char>)>((p, rest)),
{
    let s = spec_encode_params(p) + rest;
    let tail1 = depth_key() + dec_digits(p.depth) + seq!['}'] + rest;
    assert(s.take(8) =~= params_open());
    assert(starts_with(s, params_open()));
    assert(s.skip(8) =~= esc(p.url) + seq!['"'] + tail1);
    lemma_p_string_esc(p.url, tail1);
    assert(tail1.take(9) =~= depth_key());
    assert(starts_with(tail1, depth_key()));
    let tail2 = seq!['}'] + rest;
    assert(tail1.skip(9) =~= dec_digits(p.depth) + tail2);
    lemma_p_number_of_digits(p.depth, tail2);
    assert(tail2[0] == '}');
    assert(tail2.drop_first() =~= rest);
}

/// Encoding then decoding a token yields it back unchanged (the depth of
/// a callback token is bounded by what the wire carries, a `u32`).
pub proof fn lemma_token_round_trip(t: TokenView)
    requires
        t matches TokenView::Callback(p) ==> p.depth <= u32::MAX,
    ensures
        spec_decode_token(spec_encode_token(t)) == Some(t),
{
    match t {
        TokenView::InLine => {},
        TokenView::Callback(p) => {
            let s = spec_encode_token(t);
            assert(s.len() >= 32) by {
                crate::codec::lemma_dec_digits_are_digits(p.depth);
            }
            assert(s != inline_text()) by {
                assert(inline_text().len() == 15);
            }
            assert(s.take(12) =~= callback_open());
            assert(starts_with(s, callback_open()));
            assert(s.skip(12) =~= spec_encode_params(p) + seq!['}']);
            lemma_p_params_of_encoding(p, seq!['}']);
        },
    }
}

/// Encoding then decoding a task object yields it back unchanged.
pub proof fn lemma_params_round_trip(p: ParamsView)
    requires
        p.depth <= u32::MAX,
    ensures
        spec_decode_params(spec_encode_params(p)) == Some(p),
{
    assert(spec_encode_params(p) + Seq::<char>::empty() =~= spec_encode_params(p));
    lemma_p_params_of_encoding(p, Seq::empty());
}

// ---------------------------------------------------------------------
// Executable codec
// ---------------------------------------------------------------------

/// `lit` stands at the front of the suffix of `s` that begins at `i`.
fn lit_at(s: &str, i: usize, lit: &str) -> (b: bool)
    requires
        i <= s@.len(),
    ensures
        b == starts_with(s@.skip(i as int), lit@),
{
    let b = match_lit(s, i, lit);
    proof {
        if i + lit@.len() <= s@.len() {
            assert(s@.skip(i as int).take(lit@.len() as int) =~= s@.subrange(
                i as int,
                i + lit@.len(),
            ));
        }
    }
    b
}

/// Writes the wire text of a task object, exactly as
/// `spec_encode_params` describes.
pub fn encode_params(url: &str, depth: u32) -> (r: String)
    ensures
        r@ == spec_encode_params(ParamsView { url: url@, depth: depth as nat }),
{
    let mut out = String::from_str("{\"url\":\"");
    proof {
        reveal_strlit("{\"url\":\"");
        assert(out@ =~= params_open());
    }
    append_escaped(&mut out, url);
    out.append("\",\"depth\":");
    proof {
        reveal_strlit("\",\"depth\":");
        assert("\",\"depth\":"@ =~= seq!['"'] + depth_key());
    }
    let num = encode_u32(depth);
    out.append(num.as_str());
    out.append("}");
    proof {
        reveal_strlit("}");
        assert("}"@ =~= seq!['}']);
        assert(out@ =~= spec_encode_params(ParamsView { url: url@, depth: depth as nat }));
    }
    out
}

/// Writes the wire text of a token, exactly as `spec_encode_token`
/// describes.
pub fn encode_token(t: &ScrapeContext) -> (r: String)
    ensures
        r@ == spec_encode_token(t@),
{
    match t {
        ScrapeContext::InLine => {
            let out = String::from_str("{\"Inline\":null}");
            proof {
                reveal_strlit("{\"Inline\":null}");
                assert(out@ =~= inline_text());
            }
            out
        },
        ScrapeContext::Callback(p) => {
            let mut out = String::from_str("{\"Callback\":");
            proof {
                reveal_strlit("{\"Callback\":");
                assert(out@ =~= callback_open());
            }
            let body = encode_params(p.url.as_str(), p.depth);
            out.append(body.as_str());
            out.append("}");
            proof {
                reveal_strlit("}");
                assert("}"@ =~= seq!['}']);
                assert(out@ =~= spec_encode_token(t@));
            }
            out
        },
    }
}

/// Reads one task object starting at character `i`, exactly as
/// `p_params` describes; returns it and the position after it.
pub fn parse_params_at(s: &str, i: usize) -> (r: Option<(ScrapingParams, usize)>)
    requires
        i <= s@.len(),
    ensures
        match r {
            Some(v) => i <= v.1 <= s@.len() && p_params(s@.skip(i as int)) == Some(
                (v.0@, s@.skip(v.1 as int)),
            ),
            None => p_params(s@.skip(i as int)) is None,
        },
{
    let ghost rem = s@.skip(i as int);
    proof {
        reveal_strlit("{\"url\":\"");
        assert("{\"url\":\""@ =~= params_open());
        reveal_strlit(",\"depth\":");
        assert(",\"depth\":"@ =~= depth_key());
        reveal_strlit("}");
        assert("}"@ =~= seq!['}']);
    }
    let n = s.unicode_len();
    if !lit_at(s, i, "{\"url\":\"") {
        return None;
    }
    proof {
        assert(i + 8 <= n);
        assert(rem.skip(8) =~= s@.skip(i + 8));
    }
    let url_parse = parse_string_body(s, i + 8);
    match url_parse {
        None => None,
        Some((url, j)) => {
            let ghost r1 = s@.skip(j as int);
            if !lit_at(s, j, ",\"depth\":") {
                return None;
            }
            proof {
                assert(j + 9 <= n);
                assert(r1.skip(9) =~= s@.skip(j + 9));
            }
            match parse_u32(s, j + 9) {
                None => {
                    proof {
                        match p_number(r1.skip(9)) {
                            None => {},
                            Some((m, _)) => {
                                assert(m > u32::MAX);
                            },
                        }
                    }
                    None
                },
                Some((d, k)) => {
                    let ghost r2 = s@.skip(k as int);
                    if !lit_at(s, k, "}") {
                        proof {
                            if r2.len() >= 1 && r2[0] == '}' {
                                assert(r2.take(1) =~= seq!['}']);
                                assert(starts_with(r2, "}"@));
                            }
                        }
                        return None;
                    }
                    proof {
                        assert(k + 1 <= n);
                        assert(r2.take(1)[0] == r2[0]);
                        assert(r2[0] == '}');
                        assert(r2.drop_first() =~= s@.skip(k + 1));
                    }
                    Some((ScrapingParams { url, depth: d }, k + 1))
                },
            }
        },
    }
}

/// Decodes a whole message as one task object, exactly as
/// `spec_decode_params` describes. This is the worker-mode bootstrap
/// parse: `None` is the fatal startup case.
pub fn decode_params(s: &str) -> (r: Option<ScrapingParams>)
    ensures
        match r {
            Some(p) => spec_decode_params(s@) == Some(p@),
            None => spec_decode_params(s@) is None,
        },
{
    proof {
        assert(s@.skip(0) =~= s@);
    }
    match parse_params_at(s, 0) {
        None => None,
        Some((p, j)) => {
            if j == s.unicode_len() {
                proof {
                    assert(s@.skip(j as int).len() == 0);
                }
                Some(p)
            } else {
                proof {
                    assert(s@.skip(j as int).len() > 0);
                }
                None
            }
        },
    }
}

/// Decodes a whole message as one token, exactly as `spec_decode_token`
/// describes.
pub fn decode_token(s: &str) -> (r: Option<ScrapeContext>)
    ensures
        match r {
            Some(t) => spec_decode_token(s@) == Some(t@),
            None => spec_decode_token(s@) is None,
        },
{
    proof {
        reveal_strlit("{\"Inline\":null}");
        assert("{\"Inline\":null}"@ =~= inline_text());
        reveal_strlit("{\"Callback\":");
        assert("{\"Callback\":"@ =~= callback_open());
        reveal_strlit("}");
        assert("}"@ =~= seq!['}']);
        assert(s@.skip(0) =~= s@);
    }
    let n = s.unicode_len();
    if lit_at(s, 0, "{\"Inline\":null}") && n == 15 {
        proof {
            assert(s@.take(15) =~= s@);
            assert(s@ == inline_text());
        }
        return Some(ScrapeContext::InLine);
    }
    proof {
        assert(s@ != inline_text());
    }
    if !lit_at(s, 0, "{\"Callback\":") {
        return None;
    }
    match parse_params_at(s, 12) {
        None => None,
        Some((p, j)) => {
            let ghost rest = s@.skip(j as int);
            if lit_at(s, j, "}") && j + 1 == n {
                proof {
                    assert(rest.len() == 1);
                    assert(rest =~= seq!['}']);
                }
                Some(ScrapeContext::Callback(p))
            } else {
                proof {
                    if rest == seq!['}'] {
                        assert(rest.take(1) =~= seq!['}']);
                        assert(starts_with(rest, "}"@));
                        assert(j + 1 == n);
                    }
                }
                None
            }
        },
    }
}

} // verus!
