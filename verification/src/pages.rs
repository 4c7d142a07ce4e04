//! The result aggregate of a crawl: a mapping from url to page content,
//! append-only while the crawl runs. Entries keep their insertion order
//! and keys are unique; storing an already-present url replaces its
//! content in place. The batch wire format — a JSON object mapping url
//! to content — lives here too, with a proved round trip.

use vstd::prelude::*;

use crate::codec::esc;
use crate::codec::lemma_p_string_esc;
use crate::codec::lemma_p_string_shrinks;
use crate::codec::p_string;
use crate::codec::append_escaped;
use crate::codec::match_lit;
use crate::codec::parse_string_body;

verus! {

pub type PageEntries = Seq<(Seq<char>, Seq<char>)>;

/// Some entry of `es` has the key `u`.
pub open spec fn pages_has(es: PageEntries, u: Seq<char>) -> bool {
    exists|i: int| 0 <= i < es.len() && (#[trigger] es[i]).0 == u
}

/// The position of the entry with key `u`, or -1 when there is none.
pub open spec fn find_key(es: PageEntries, u: Seq<char>) -> int
    decreases es.len(),
{
    if es.len() == 0 {
        -1
    } else if es.first().0 == u {
        0
    } else {
        let r = find_key(es.drop_first(), u);
        if r < 0 {
            -1
        } else {
            r + 1
        }
    }
}

/// Keys are unique.
pub open spec fn entries_wf(es: PageEntries) -> bool {
    forall|i: int, j: int| 0 <= i < j < es.len() ==> (#[trigger] es[i]).0 != (#[trigger] es[j]).0
}

/// Storing `(k, v)`: replaces the content of an entry with that key in
/// place, or appends a new entry.
pub open spec fn spec_insert(es: PageEntries, k: Seq<char>, v: Seq<char>) -> PageEntries {
    if find_key(es, k) < 0 {
        es.push((k, v))
    } else {
        es.update(find_key(es, k), (k, v))
    }
}

/// Storing every entry of `batch` in order, first entry first.
pub open spec fn spec_merge(es: PageEntries, batch: PageEntries) -> PageEntries
    decreases batch.len(),
{
    if batch.len() == 0 {
        es
    } else {
        spec_merge(spec_insert(es, batch.first().0, batch.first().1), batch.drop_first())
    }
}

pub proof fn lemma_find_key(es: PageEntries, u: Seq<char>)
    ensures
        pages_has(es, u) <==> find_key(es, u) >= 0,
        find_key(es, u) >= 0 ==> find_key(es, u) < es.len() && es[find_key(es, u)].0 == u,
    decreases es.len(),
{
    if es.len() > 0 {
        if es.first().0 == u {
            assert(es[0].0 == u);
        } else {
            lemma_find_key(es.drop_first(), u);
            if pages_has(es, u) {
                let w = choose|w: int| 0 <= w < es.len() && (#[trigger] es[w]).0 == u;
                assert(w != 0);
                assert(es.drop_first()[w - 1] == es[w]);
                assert(pages_has(es.drop_first(), u));
            }
            if pages_has(es.drop_first(), u) {
                let w = choose|w: int|
                    0 <= w < es.drop_first().len() && (#[trigger] es.drop_first()[w]).0 == u;
                assert(es[w + 1] == es.drop_first()[w]);
                assert(pages_has(es, u));
            }
            let fk = find_key(es.drop_first(), u);
            if fk >= 0 {
                assert(es[fk + 1] == es.drop_first()[fk]);
            }
        }
    }
}

/// The result aggregate: url to content, insertion order kept, keys
/// unique.
pub struct ScrapedPages {
    entries: Vec<(String, String)>,
}

impl View for ScrapedPages {
    type V = PageEntries;

    closed spec fn view(&self) -> PageEntries {
        self.entries.deep_view()
    }
}

impl ScrapedPages {
    pub open spec fn wf(&self) -> bool {
        entries_wf(self@)
    }

    pub fn new() -> (r: ScrapedPages)
        ensures
            r@ =~= Seq::<(Seq<char>, Seq<char>)>::empty(),
            r.wf(),
    {
        ScrapedPages { entries: Vec::new() }
    }

    pub fn len(&self) -> (n: usize)
        ensures
            n == self@.len(),
    {
        self.entries.len()
    }

    /// The index of the entry with key `url`, as `find_key` describes.
    fn position(&self, url: &str) -> (r: Option<usize>)
        ensures
            match r {
                Some(i) => i < self@.len() && find_key(self@, url@) == i as int,
                None => find_key(self@, url@) < 0,
            },
    {
        let n = self.entries.len();
        let mut i: usize = 0;
        proof {
            assert(self@.skip(0) =~= self@);
        }
        while i < n
            invariant
                i <= n,
                n == self@.len(),
                find_key(self@, url@) == if find_key(self@.skip(i as int), url@) < 0 {
                    -1
                } else {
                    find_key(self@.skip(i as int), url@) + i
                },
            decreases n - i,
        {
            let hit = eq_str(&self.entries[i].0, url);
            proof {
                let rem = self@.skip(i as int);
                assert(rem.first() == self@[i as int]);
                assert(rem.drop_first() =~= self@.skip(i + 1));
            }
            if hit {
                return Some(i);
            }
            i += 1;
        }
        proof {
            assert(self@.skip(n as int).len() == 0);
        }
        None
    }

    /// Whether `url` has been recorded.
    pub fn contains_key(&self, url: &str) -> (b: bool)
        ensures
            b == pages_has(self@, url@),
    {
        proof {
            lemma_find_key(self@, url@);
        }
        match self.position(url) {
            Some(_) => true,
            None => false,
        }
    }

    /// The recorded content of `url`, if any.
    pub fn get(&self, url: &str) -> (r: Option<&String>)
        ensures
            match r {
                Some(v) => find_key(self@, url@) >= 0 && self@[find_key(self@, url@)].1 == v@,
                None => find_key(self@, url@) < 0,
            },
    {
        match self.position(url) {
            Some(i) => Some(&self.entries[i].1),
            None => None,
        }
    }

    /// Stores `url -> page`, exactly as `spec_insert` describes;
    /// append-only on the set of keys, and well-formedness is kept.
    pub fn insert(&mut self, url: String, page: String)
        requires
            old(self).wf(),
        ensures
            final(self).wf(),
            final(self)@ == spec_insert(old(self)@, url@, page@),
            pages_has(final(self)@, url@),
            forall|u: Seq<char>| pages_has(old(self)@, u) ==> pages_has(#[trigger] final(self)@, u),
    {
        proof {
            lemma_find_key(self@, url@);
        }
        let ghost es0 = self@;
        match self.position(url.as_str()) {
            Some(i) => {
                self.entries.remove(i);
                self.entries.insert(i, (url, page));
                proof {
                    assert(self@ =~= es0.update(i as int, (url@, page@)));
                    assert forall|u: Seq<char>| pages_has(es0, u) implies pages_has(self@, u) by {
                        let w = choose|w: int| 0 <= w < es0.len() && (#[trigger] es0[w]).0 == u;
                        if w == i {
                            assert(self@[i as int].0 == u);
                        } else {
                            assert(self@[w].0 == u);
                        }
                    }
                }
            },
            None => {
                self.entries.push((url, page));
                proof {
                    assert(self@ =~= es0.push((url@, page@)));
                    assert(self@[es0.len() as int].0 == url@);
                    assert forall|u: Seq<char>| pages_has(es0, u) implies pages_has(self@, u) by {
                        let w = choose|w: int| 0 <= w < es0.len() && (#[trigger] es0[w]).0 == u;
                        assert(self@[w].0 == u);
                    }
                    assert forall|i: int, j: int| 0 <= i < j < self@.len() implies (
                    #[trigger] self@[i]).0 != (#[trigger] self@[j]).0 by {
                        if j == es0.len() {
                            lemma_find_key(es0, url@);
                            assert(!pages_has(es0, url@));
                        }
                    }
                }
            },
        }
    }

    /// Stores every entry of `batch` in order, exactly as `spec_merge`
    /// describes.
    pub fn merge(&mut self, batch: Vec<(String, String)>)
        requires
            old(self).wf(),
        ensures
            final(self).wf(),
            final(self)@ == spec_merge(old(self)@, batch.deep_view()),
    {
        let ghost bv = batch.deep_view();
        let n = batch.len();
        let mut i: usize = 0;
        let mut rest = batch;
        proof {
            assert(bv.skip(0) =~= bv);
        }
        while i < n
            invariant
                i <= n,
                n == bv.len(),
                rest.deep_view() =~= bv.skip(i as int),
                self.wf(),
                spec_merge(old(self)@, bv) == spec_merge(self@, bv.skip(i as int)),
            decreases n - i,
        {
            let ghost rem = bv.skip(i as int);
            let (k, v) = rest.remove(0);
            proof {
                assert(rem.first() == (k@, v@));
                assert(rest.deep_view() =~= rem.drop_first());
                assert(rem.drop_first() =~= bv.skip(i + 1));
            }
            self.insert(k, v);
            i += 1;
        }
        proof {
            assert(bv.skip(n as int).len() == 0);
        }
    }
}

// ---------------------------------------------------------------------
// Batch wire format: a JSON object mapping url to content
// ---------------------------------------------------------------------

/// The wire text of one entry: `"<key>":"<value>"`, both escaped.
pub open spec fn enc_entry(e: (Seq<char>, Seq<char>)) -> Seq<char> {
    seq!['"'] + esc(e.0) + seq!['"', ':', '"'] + esc(e.1) + seq!['"']
}

/// The wire text of every entry after the first, each with its leading
/// comma.
pub open spec fn enc_entries_rest(es: PageEntries) -> Seq<char>
    decreases es.len(),
{
    if es.len() == 0 {
        Seq::empty()
    } else {
        seq![','] + enc_entry(es.first()) + enc_entries_rest(es.drop_first())
    }
}

/// The wire text of a whole batch: `{}`, or the entries in order inside
/// braces, separated by commas.
pub open spec fn spec_encode_pages(es: PageEntries) -> Seq<char> {
    if es.len() == 0 {
        seq!['{', '}']
    } else {
        seq!['{'] + enc_entry(es.first()) + enc_entries_rest(es.drop_first()) + seq!['}']
    }
}

/// Reads one `"key":"value"` pair from the front of `s`.
pub open spec fn p_entry(s: Seq<char>) -> Option<((Seq<char>, Seq<char>), Seq<char>)> {
    if s.len() >= 1 && s[0] == '"' {
        match p_string(s.skip(1)) {
            None => None,
            Some((k, r1)) => {
                if r1.len() >= 2 && r1[0] == ':' && r1[1] == '"' {
                    match p_string(r1.skip(2)) {
                        None => None,
                        Some((v, r2)) => Some(((k, v), r2)),
                    }
                } else {
                    None
                }
            },
        }
    } else {
        None
    }
}

pub proof fn lemma_p_entry_shrinks(s: Seq<char>)
    ensures
        p_entry(s) matches Some(p) ==> p.1.len() < s.len(),
{
    if s.len() >= 1 && s[0] == '"' {
        lemma_p_string_shrinks(s.skip(1));
        match p_string(s.skip(1)) {
            None => {},
            Some((k, r1)) => {
                if r1.len() >= 2 && r1[0] == ':' && r1[1] == '"' {
                    lemma_p_string_shrinks(r1.skip(2));
                }
            },
        }
    }
}

/// Reads one or more comma-separated pairs from the front of `s`.
pub open spec fn p_entries(s: Seq<char>) -> Option<(PageEntries, Seq<char>)>
    decreases s.len(),
    via p_entries_dec
{
    match p_entry(s) {
        None => None,
        Some((e, r)) => {
            if r.len() >= 1 && r[0] == ',' {
                match p_entries(r.skip(1)) {
                    None => None,
                    Some((es, r2)) => Some((seq![e] + es, r2)),
                }
            } else {
                Some((seq![e], r))
            }
        },
    }
}

#[via_fn]
proof fn p_entries_dec(s: Seq<char>) {
    lemma_p_entry_shrinks(s);
}

/// A whole message that is exactly one batch object.
pub open spec fn spec_decode_pages(s: Seq<char>) -> Option<PageEntries> {
    if s == seq!['{', '}'] {
        Some(Seq::empty())
    } else if s.len() >= 1 && s[0] == '{' {
        match p_entries(s.skip(1)) {
            None => None,
            Some((es, r)) => if r == seq!['}'] {
                Some(es)
            } else {
                None
            },
        }
    } else {
        None
    }
}

/// Reading back an encoded entry returns it, with what follows
/// untouched.
pub proof fn lemma_p_entry_of_encoding(e: (Seq<char>, Seq<char>), rest: Seq<char>)
    ensures
        p_entry(enc_entry(e) + rest) == Some::<((Seq<char>, Seq<char>), Seq<char>)>((e, rest)),
{
    let s = enc_entry(e) + rest;
    let tail1 = seq![':', '"'] + esc(e.1) + seq!['"'] + rest;
    assert(s[0] == '"');
    assert(s.skip(1) =~= esc(e.0) + seq!['"'] + tail1);
    lemma_p_string_esc(e.0, tail1);
    assert(tail1[0] == ':' && tail1[1] == '"');
    assert(tail1.skip(2) =~= esc(e.1) + seq!['"'] + rest);
    lemma_p_string_esc(e.1, rest);
}

/// Reading back encoded entries returns them all, with what follows
/// untouched, as long as what follows does not begin another entry.
pub proof fn lemma_p_entries_of_encoding(es: PageEntries, rest: Seq<char>)
    requires
        es.len() >= 1,
        rest.len() >= 1,
        rest[0] != ',',
        rest[0] != '"',
    ensures
        p_entries(enc_entry(es.first()) + enc_entries_rest(es.drop_first()) + rest) == Some::<
            (PageEntries, Seq<char>),
        >((es, rest)),
    decreases es.len(),
{
    let s = enc_entry(es.first()) + enc_entries_rest(es.drop_first()) + rest;
    if es.len() == 1 {
        assert(enc_entries_rest(es.drop_first()) =~= Seq::<char>::empty());
        assert(s =~= enc_entry(es.first()) + rest);
        lemma_p_entry_of_encoding(es.first(), rest);
        assert(p_entry(s) == Some::<((Seq<char>, Seq<char>), Seq<char>)>((es.first(), rest)));
        assert(rest[0] != ',');
        assert(seq![es.first()] =~= es);
    } else {
        let es2 = es.drop_first();
        let mid = seq![','] + enc_entry(es2.first()) + enc_entries_rest(es2.drop_first()) + rest;
        assert(s =~= enc_entry(es.first()) + mid);
        lemma_p_entry_of_encoding(es.first(), mid);
        assert(mid[0] == ',');
        assert(mid.skip(1) =~= enc_entry(es2.first()) + enc_entries_rest(es2.drop_first()) + rest);
        lemma_p_entries_of_encoding(es2, rest);
        assert(seq![es.first()] + es2 =~= es);
    }
}

/// Encoding a batch and decoding it yields the same entries.
pub proof fn lemma_pages_round_trip(es: PageEntries)
    ensures
        spec_decode_pages(spec_encode_pages(es)) == Some(es),
{
    let s = spec_encode_pages(es);
    if es.len() == 0 {
        assert(s =~= seq!['{', '}']);
        assert(Seq::<(Seq<char>, Seq<char>)>::empty() =~= es);
    } else {
        lemma_p_entries_of_encoding(es, seq!['}']);
        assert(s.skip(1) =~= enc_entry(es.first()) + enc_entries_rest(es.drop_first())
            + seq!['}']);
        assert(s[0] == '{');
        assert(s.len() >= 7);
        assert(s != seq!['{', '}']);
    }
}

/// Writes one batch entry, exactly as `enc_entry` describes.
fn append_entry(out: &mut String, key: &str, val: &str)
    ensures
        final(out)@ == old(out)@ + enc_entry((key@, val@)),
{
    proof {
        reveal_strlit("\"");
        reveal_strlit("\":\"");
        assert("\""@ =~= seq!['"']);
        assert("\":\""@ =~= seq!['"', ':', '"']);
    }
    out.append("\"");
    append_escaped(out, key);
    out.append("\":\"");
    append_escaped(out, val);
    out.append("\"");
    proof {
        assert(final(out)@ =~= old(out)@ + enc_entry((key@, val@)));
    }
}

impl ScrapedPages {
    /// The wire text of the whole aggregate, exactly as
    /// `spec_encode_pages` describes. This is the single output a
    /// worker-mode crawl emits.
    pub fn encode(&self) -> (r: String)
        ensures
            r@ == spec_encode_pages(self@),
    {
        let n = self.entries.len();
        if n == 0 {
            let r = String::from_str("{}");
            proof {
                reveal_strlit("{}");
                assert(r@ =~= seq!['{', '}']);
            }
            return r;
        }
        let mut out = String::from_str("{");
        proof {
            reveal_strlit("{");
            assert(out@ =~= seq!['{']);
        }
        append_entry(&mut out, self.entries[0].0.as_str(), self.entries[0].1.as_str());
        let ghost dv = self@;
        let mut i: usize = 1;
        while i < n
            invariant
                1 <= i <= n,
                n == dv.len(),
                dv == self@,
                out@ == seq!['{'] + enc_entry(dv.first()) + enc_entries_rest(
                    dv.subrange(1, i as int),
                ),
            decreases n - i,
        {
            let ghost pre = dv.subrange(1, i as int);
            let mut piece = String::from_str(",");
            proof {
                reveal_strlit(",");
                assert(piece@ =~= seq![',']);
            }
            append_entry(&mut piece, self.entries[i].0.as_str(), self.entries[i].1.as_str());
            out.append(piece.as_str());
            proof {
                let e = dv[i as int];
                lemma_enc_entries_rest_snoc(pre, e);
                assert(pre.push(e) =~= dv.subrange(1, i + 1));
                assert(out@ =~= seq!['{'] + enc_entry(dv.first()) + enc_entries_rest(
                    dv.subrange(1, i + 1),
                ));
            }
            i += 1;
        }
        out.append("}");
        proof {
            reveal_strlit("}");
            assert("}"@ =~= seq!['}']);
            assert(dv.subrange(1, n as int) =~= dv.drop_first());
            assert(out@ =~= spec_encode_pages(dv));
        }
        out
    }
}

/// Appending one entry to the tail extends its wire text at the end.
proof fn lemma_enc_entries_rest_snoc(es: PageEntries, e: (Seq<char>, Seq<char>))
    ensures
        enc_entries_rest(es.push(e)) == enc_entries_rest(es) + (seq![','] + enc_entry(e)),
    decreases es.len(),
{
    if es.len() == 0 {
        assert(es.push(e).first() == e);
        assert(es.push(e).drop_first() =~= Seq::<(Seq<char>, Seq<char>)>::empty());
        assert(enc_entries_rest(Seq::<(Seq<char>, Seq<char>)>::empty()) == Seq::<char>::empty());
        assert(enc_entries_rest(es.push(e)) == seq![','] + enc_entry(e) + Seq::<char>::empty());
        assert(seq![','] + enc_entry(e) + Seq::<char>::empty() =~= seq![','] + enc_entry(e));
        assert(enc_entries_rest(es) + (seq![','] + enc_entry(e)) =~= seq![','] + enc_entry(e));
    } else {
        lemma_enc_entries_rest_snoc(es.drop_first(), e);
        assert(es.push(e).first() == es.first());
        assert(es.push(e).drop_first() =~= es.drop_first().push(e));
        assert(seq![','] + enc_entry(es.first()) + (enc_entries_rest(es.drop_first()) + (seq![',']
            + enc_entry(e))) =~= (seq![','] + enc_entry(es.first()) + enc_entries_rest(
            es.drop_first(),
        )) + (seq![','] + enc_entry(e)));
    }
}

/// Reads one batch entry starting at character `i`, exactly as
/// `p_entry` describes.
fn parse_entry_at(s: &str, i: usize) -> (r: Option<((String, String), usize)>)
    requires
        i <= s@.len(),
    ensures
        match r {
            Some(v) => i < v.1 <= s@.len() && p_entry(s@.skip(i as int)) == Some(
                ((v.0.0@, v.0.1@), s@.skip(v.1 as int)),
            ),
            None => p_entry(s@.skip(i as int)) is None,
        },
{
    let ghost rem = s@.skip(i as int);
    proof {
        reveal_strlit("\"");
        reveal_strlit(":\"");
        assert("\""@ =~= seq!['"']);
        assert(":\""@ =~= seq![':', '"']);
    }
    let n = s.unicode_len();
    if !match_lit(s, i, "\"") {
        proof {
            if rem.len() >= 1 && rem[0] == '"' {
                assert(s@.subrange(i as int, i + 1) =~= seq!['"']);
            }
        }
        return None;
    }
    proof {
        assert(s@.subrange(i as int, i + 1)[0] == s@[i as int]);
        assert(rem[0] == '"');
        assert(rem.skip(1) =~= s@.skip(i + 1));
    }
    match parse_string_body(s, i + 1) {
        None => None,
        Some((k, j)) => {
            let ghost r1 = s@.skip(j as int);
            if !match_lit(s, j, ":\"") {
                proof {
                    if r1.len() >= 2 && r1[0] == ':' && r1[1] == '"' {
                        assert(s@.subrange(j as int, j + 2) =~= seq![':', '"']);
                    }
                }
                return None;
            }
            proof {
                assert(s@.subrange(j as int, j + 2)[0] == s@[j as int]);
                assert(s@.subrange(j as int, j + 2)[1] == s@[j + 1]);
                assert(r1.len() >= 2 && r1[0] == ':' && r1[1] == '"');
                assert(r1.skip(2) =~= s@.skip(j + 2));
            }
            match parse_string_body(s, j + 2) {
                None => None,
                Some((v, m)) => Some(((k, v), m)),
            }
        },
    }
}

/// Decodes a whole message as one batch, exactly as `spec_decode_pages`
/// describes: the entries of the object, in document order.
pub fn decode_pages(s: &str) -> (r: Option<Vec<(String, String)>>)
    ensures
        match r {
            Some(es) => spec_decode_pages(s@) == Some(es.deep_view()),
            None => spec_decode_pages(s@) is None,
        },
{
    proof {
        reveal_strlit("{}");
        reveal_strlit("{");
        reveal_strlit("}");
        reveal_strlit(",");
        assert("{}"@ =~= seq!['{', '}']);
        assert("{"@ =~= seq!['{']);
        assert("}"@ =~= seq!['}']);
        assert(","@ =~= seq![',']);
    }
    let n = s.unicode_len();
    if match_lit(s, 0, "{}") && n == 2 {
        proof {
            assert(s@ =~= seq!['{', '}']);
        }
        let empty: Vec<(String, String)> = Vec::new();
        proof {
            assert(empty.deep_view() =~= Seq::<(Seq<char>, Seq<char>)>::empty());
        }
        return Some(empty);
    }
    proof {
        if s@ == seq!['{', '}'] {
            assert(s@.subrange(0, 2) =~= s@);
        }
        assert(s@ != seq!['{', '}']);
    }
    if !match_lit(s, 0, "{") {
        proof {
            if s@.len() >= 1 && s@[0] == '{' {
                assert(s@.subrange(0, 1) =~= seq!['{']);
            }
        }
        return None;
    }
    proof {
        assert(s@.subrange(0, 1)[0] == s@[0]);
        assert(s@.len() >= 1 && s@[0] == '{');
    }
    let mut acc: Vec<(String, String)> = Vec::new();
    let mut k: usize = 1;
    proof {
        assert(acc.deep_view() =~= Seq::<(Seq<char>, Seq<char>)>::empty());
    }
    loop
        invariant
            1 <= k <= s@.len(),
            s@.len() >= 1 && s@[0] == '{',
            s@ != seq!['{', '}'],
            match p_entries(s@.skip(k as int)) {
                None => p_entries(s@.skip(1)) is None,
                Some((es, r)) => p_entries(s@.skip(1)) == Some::<(PageEntries, Seq<char>)>(
                    (acc.deep_view() + es, r),
                ),
            },
        decreases s@.len() - k,
    {
        proof {
            reveal_strlit("}");
            reveal_strlit(",");
            assert("}"@ =~= seq!['}']);
            assert(","@ =~= seq![',']);
        }
        let n = s.unicode_len();
        match parse_entry_at(s, k) {
            None => {
                return None;
            },
            Some((e, j)) => {
                let ghost rem = s@.skip(k as int);
                let ghost rj = s@.skip(j as int);
                let ghost ev = (e.0@, e.1@);
                if j < n && match_lit(s, j, ",") {
                    proof {
                        assert(s@.subrange(j as int, j + 1)[0] == s@[j as int]);
                        assert(rj.len() >= 1 && rj[0] == ',');
                        assert(rj.skip(1) =~= s@.skip(j + 1));
                        match p_entries(s@.skip(j + 1)) {
                            None => {},
                            Some((es2, r2)) => {
                                assert(seq![ev] + es2 =~= p_entries(rem)->Some_0.0);
                                assert(acc.deep_view().push(ev) + es2 =~= acc.deep_view() + (
                                seq![ev] + es2));
                            },
                        }
                    }
                    let ghost dv0 = acc.deep_view();
                    acc.push(e);
                    proof {
                        assert(acc.deep_view() =~= dv0.push(ev));
                    }
                    k = j + 1;
                } else {
                    proof {
                        if rj.len() >= 1 && rj[0] == ',' {
                            assert(s@.subrange(j as int, j + 1) =~= seq![',']);
                            assert(j < n);
                        }
                        assert(!(rj.len() >= 1 && rj[0] == ','));
                        assert(p_entries(rem) == Some::<(PageEntries, Seq<char>)>(
                            (seq![ev], rj),
                        ));
                    }
                    let ghost dv0 = acc.deep_view();
                    acc.push(e);
                    proof {
                        assert(acc.deep_view() =~= dv0.push(ev));
                        assert(dv0.push(ev) =~= dv0 + seq![ev]);
                    }
                    if match_lit(s, j, "}") && j + 1 == n {
                        proof {
                            assert(rj.len() == 1);
                            assert(rj =~= seq!['}']);
                        }
                        return Some(acc);
                    } else {
                        proof {
                            if rj == seq!['}'] {
                                assert(rj.take(1) =~= seq!['}']);
                                assert(s@.subrange(j as int, j + 1) =~= rj.take(1));
                                assert(j + 1 == n);
                            }
                        }
                        return None;
                    }
                }
            },
        }
    }
}

/// Character-for-character equality of two strings.
fn eq_str(a: &str, b: &str) -> (r: bool)
    ensures
        r == (a@ == b@),
{
    let na = a.unicode_len();
    let nb = b.unicode_len();
    if na != nb {
        return false;
    }
    let mut i: usize = 0;
    while i < na
        invariant
            i <= na,
            na == a@.len(),
            na == b@.len(),
            forall|k: int| 0 <= k < i ==> a@[k] == b@[k],
        decreases na - i,
    {
        if a.get_char(i) != b.get_char(i) {
            return false;
        }
        i += 1;
    }
    proof {
        assert(a@ =~= b@);
    }
    true
}

} // verus!
