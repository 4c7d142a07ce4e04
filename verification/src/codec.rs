//! The wire format shared by every message of the crawler: decimal
//! numbers, quoted strings with escapes, and the helpers that the token
//! and batch codecs build on. Each parser has a total specification over
//! `Seq<char>`; the executable functions are proved to return exactly
//! what the specification says, so encoding followed by decoding can be
//! proved lossless.

use vstd::prelude::*;

verus! {

// ---------------------------------------------------------------------
// Decimal numbers
// ---------------------------------------------------------------------

pub open spec fn is_digit(c: char) -> bool {
    '0' <= c && c <= '9'
}

pub open spec fn digit_val(c: char) -> nat {
    (c as nat - '0' as nat) as nat
}

pub open spec fn char_of_digit(d: nat) -> char {
    if d == 0 { '0' }
    else if d == 1 { '1' }
    else if d == 2 { '2' }
    else if d == 3 { '3' }
    else if d == 4 { '4' }
    else if d == 5 { '5' }
    else if d == 6 { '6' }
    else if d == 7 { '7' }
    else if d == 8 { '8' }
    else { '9' }
}

/// The canonical decimal rendering of `n`, most significant digit first,
/// with no leading zeros (a single `'0'` for zero).
pub open spec fn dec_digits(n: nat) -> Seq<char>
    decreases n,
{
    if n < 10 {
        seq![char_of_digit(n)]
    } else {
        dec_digits(n / 10) + seq![char_of_digit(n % 10)]
    }
}

/// The numeric value of a sequence of decimal digit characters.
pub open spec fn dec_val(s: Seq<char>) -> nat
    decreases s.len(),
{
    if s.len() == 0 {
        0
    } else {
        dec_val(s.drop_last()) * 10 + digit_val(s.last())
    }
}

pub open spec fn all_digits(s: Seq<char>) -> bool {
    forall|i: int| 0 <= i < s.len() ==> is_digit(#[trigger] s[i])
}

pub proof fn lemma_digit_of_char(d: nat)
    requires
        d < 10,
    ensures
        is_digit(char_of_digit(d)),
        digit_val(char_of_digit(d)) == d,
{
}

pub proof fn lemma_dec_digits_are_digits(n: nat)
    ensures
        dec_digits(n).len() >= 1,
        all_digits(dec_digits(n)),
    decreases n,
{
    if n < 10 {
        lemma_digit_of_char(n);
    } else {
        lemma_dec_digits_are_digits(n / 10);
        lemma_digit_of_char(n % 10);
        assert forall|i: int| 0 <= i < dec_digits(n).len() implies is_digit(
            #[trigger] dec_digits(n)[i],
        ) by {
            if i < dec_digits(n / 10).len() {
                assert(dec_digits(n)[i] == dec_digits(n / 10)[i]);
            }
        }
    }
}

/// Reading back the canonical rendering of `n` gives `n` again.
pub proof fn lemma_dec_val_of_digits(n: nat)
    ensures
        dec_val(dec_digits(n)) == n,
    decreases n,
{
    if n < 10 {
        lemma_digit_of_char(n);
        assert(dec_digits(n).drop_last() =~= Seq::<char>::empty());
        assert(dec_val(Seq::<char>::empty()) == 0);
        assert(dec_digits(n).last() == char_of_digit(n));
    } else {
        lemma_dec_val_of_digits(n / 10);
        lemma_digit_of_char(n % 10);
        assert(dec_digits(n).drop_last() =~= dec_digits(n / 10));
        assert(dec_digits(n).last() == char_of_digit(n % 10));
        assert(dec_val(dec_digits(n)) == dec_val(dec_digits(n / 10)) * 10 + digit_val(
            char_of_digit(n % 10),
        ));
        assert(n / 10 * 10 + n % 10 == n) by {
            vstd::arithmetic::div_mod::lemma_fundamental_div_mod(n as int, 10);
        }
    }
}

// ---------------------------------------------------------------------
// Quoted strings with escapes
// ---------------------------------------------------------------------

/// How one character is written inside a quoted string: quote and
/// backslash get a backslash in front, everything else stands as it is.
pub open spec fn esc_char(c: char) -> Seq<char> {
    if c == '"' || c == '\\' {
        seq!['\\', c]
    } else {
        seq![c]
    }
}

/// The escaped form of a whole string body.
pub open spec fn esc(s: Seq<char>) -> Seq<char>
    decreases s.len(),
{
    if s.len() == 0 {
        Seq::empty()
    } else {
        esc_char(s.first()) + esc(s.drop_first())
    }
}

pub proof fn lemma_esc_concat(a: Seq<char>, b: Seq<char>)
    ensures
        esc(a + b) == esc(a) + esc(b),
    decreases a.len(),
{
    if a.len() == 0 {
        assert(a + b =~= b);
        assert(esc(a) + esc(b) =~= esc(b));
    } else {
        lemma_esc_concat(a.drop_first(), b);
        assert((a + b).drop_first() =~= a.drop_first() + b);
        assert((a + b).first() == a.first());
        assert(esc_char(a.first()) + (esc(a.drop_first()) + esc(b)) =~= (esc_char(a.first())
            + esc(a.drop_first())) + esc(b));
    }
}

/// Reads a quoted string body: `s` begins just after the opening quote.
/// Returns the unescaped content and the remainder after the closing
/// quote, or `None` when the quote never closes or an escape is not one
/// of the two accepted ones.
pub open spec fn p_string(s: Seq<char>) -> Option<(Seq<char>, Seq<char>)>
    decreases s.len(),
{
    if s.len() == 0 {
        None
    } else if s[0] == '"' {
        Some((Seq::empty(), s.drop_first()))
    } else if s[0] == '\\' {
        if s.len() >= 2 && (s[1] == '"' || s[1] == '\\') {
            match p_string(s.skip(2)) {
                None => None,
                Some((t, r)) => Some((seq![s[1]] + t, r)),
            }
        } else {
            None
        }
    } else {
        match p_string(s.drop_first()) {
            None => None,
            Some((t, r)) => Some((seq![s[0]] + t, r)),
        }
    }
}

/// Escaping, closing the quote, and parsing gives the body back, with
/// whatever followed the closing quote untouched.
pub proof fn lemma_p_string_esc(x: Seq<char>, rest: Seq<char>)
    ensures
        p_string(esc(x) + seq!['"'] + rest) == Some::<(Seq<char>, Seq<char>)>((x, rest)),
    decreases x.len(),
{
    let s = esc(x) + seq!['"'] + rest;
    if x.len() == 0 {
        assert(s =~= seq!['"'] + rest);
        assert(s[0] == '"');
        assert(s.drop_first() =~= rest);
    } else {
        let c = x.first();
        lemma_p_string_esc(x.drop_first(), rest);
        let s2 = esc(x.drop_first()) + seq!['"'] + rest;
        if c == '"' || c == '\\' {
            assert(esc(x) =~= seq!['\\', c] + esc(x.drop_first()));
            assert(s[0] == '\\');
            assert(s[1] == c);
            assert(s.skip(2) =~= s2);
            assert(seq![c] + x.drop_first() =~= x);
        } else {
            assert(esc(x) =~= seq![c] + esc(x.drop_first()));
            assert(s[0] == c);
            assert(s.drop_first() =~= s2);
            assert(seq![c] + x.drop_first() =~= x);
        }
    }
}

/// A successful string parse always consumes at least the closing quote.
pub proof fn lemma_p_string_shrinks(s: Seq<char>)
    ensures
        p_string(s) matches Some(p) ==> p.1.len() < s.len(),
    decreases s.len(),
{
    if s.len() > 0 && s[0] != '"' {
        if s[0] == '\\' {
            if s.len() >= 2 && (s[1] == '"' || s[1] == '\\') {
                lemma_p_string_shrinks(s.skip(2));
            }
        } else {
            lemma_p_string_shrinks(s.drop_first());
        }
    }
}

// ---------------------------------------------------------------------
// Number parsing
// ---------------------------------------------------------------------

/// Splits `s` into its longest prefix of decimal digits and the rest.
pub open spec fn p_digits(s: Seq<char>) -> (Seq<char>, Seq<char>)
    decreases s.len(),
{
    if s.len() > 0 && is_digit(s[0]) {
        let (d, r) = p_digits(s.drop_first());
        (seq![s[0]] + d, r)
    } else {
        (Seq::empty(), s)
    }
}

/// Reads an unsigned decimal number: at least one digit, taken greedily.
pub open spec fn p_number(s: Seq<char>) -> Option<(nat, Seq<char>)> {
    let (d, r) = p_digits(s);
    if d.len() == 0 {
        None
    } else {
        Some((dec_val(d), r))
    }
}

pub proof fn lemma_p_digits_of_digits(d: Seq<char>, rest: Seq<char>)
    requires
        all_digits(d),
        rest.len() > 0 ==> !is_digit(rest[0]),
    ensures
        p_digits(d + rest) == (d, rest),
    decreases d.len(),
{
    let s = d + rest;
    if d.len() == 0 {
        assert(s =~= rest);
    } else {
        assert(is_digit(d[0]));
        assert(s[0] == d[0]);
        lemma_p_digits_of_digits(d.drop_first(), rest);
        assert(s.drop_first() =~= d.drop_first() + rest);
        assert(seq![s[0]] + d.drop_first() =~= d);
    }
}

/// Parsing the canonical rendering of `n`, followed by a non-digit,
/// yields `n` and leaves the rest untouched.
pub proof fn lemma_p_number_of_digits(n: nat, rest: Seq<char>)
    requires
        rest.len() > 0 ==> !is_digit(rest[0]),
    ensures
        p_number(dec_digits(n) + rest) == Some::<(nat, Seq<char>)>((n, rest)),
{
    lemma_dec_digits_are_digits(n);
    lemma_p_digits_of_digits(dec_digits(n), rest);
    lemma_dec_val_of_digits(n);
}

/// More digits never lower the value that is read.
pub proof fn lemma_dec_val_append(d1: Seq<char>, d2: Seq<char>)
    ensures
        dec_val(d1 + d2) >= dec_val(d1),
    decreases d2.len(),
{
    if d2.len() == 0 {
        assert(d1 + d2 =~= d1);
    } else {
        lemma_dec_val_append(d1, d2.drop_last());
        assert((d1 + d2).drop_last() =~= d1 + d2.drop_last());
        assert(dec_val(d1 + d2) == dec_val(d1 + d2.drop_last()) * 10 + digit_val((d1 + d2).last()));
    }
}

// ---------------------------------------------------------------------
// Payload text
// ---------------------------------------------------------------------

/// What a byte payload reads as text: the characters of its UTF-8
/// decoding, or nothing when it is not valid UTF-8. A function of the
/// bytes alone.
pub uninterp spec fn utf8_decode(b: Seq<u8>) -> Option<Seq<char>>;

/// Relies on `String::from_utf8`: returns the text of the bytes exactly
/// when they are valid UTF-8, and fails otherwise; the result depends
/// on the bytes alone.
#[verifier::external_body]
pub(crate) fn bytes_to_string(b: Vec<u8>) -> (r: Option<String>)
    ensures
        match r {
            Some(s) => utf8_decode(b@) == Some(s@),
            None => utf8_decode(b@) is None,
        },
{
    match String::from_utf8(b) {
        Ok(s) => Some(s),
        Err(_) => None,
    }
}

// ---------------------------------------------------------------------
// Executable helpers
// ---------------------------------------------------------------------

/// True exactly when `lit` occurs in `s` at character position `i`.
pub fn match_lit(s: &str, i: usize, lit: &str) -> (b: bool)
    ensures
        b == (i + lit@.len() <= s@.len() && s@.subrange(i as int, i + lit@.len()) == lit@),
{
    let n = s.unicode_len();
    let m = lit.unicode_len();
    if m > n || i > n - m {
        return false;
    }
    let mut j: usize = 0;
    while j < m
        invariant
            m <= n,
            i <= n - m,
            j <= m,
            n == s@.len(),
            m == lit@.len(),
            forall|k: int| 0 <= k < j ==> s@[i + k] == lit@[k],
        decreases m - j,
    {
        if s.get_char(i + j) != lit.get_char(j) {
            assert(s@.subrange(i as int, i + lit@.len())[j as int] == s@[i + j]);
            return false;
        }
        j += 1;
    }
    assert(s@.subrange(i as int, i + lit@.len()) =~= lit@);
    true
}

fn digit_str(d: u32) -> (s: &'static str)
    requires
        d < 10,
    ensures
        s@ == seq![char_of_digit(d as nat)],
{
    let r = if d == 0 {
        "0"
    } else if d == 1 {
        "1"
    } else if d == 2 {
        "2"
    } else if d == 3 {
        "3"
    } else if d == 4 {
        "4"
    } else if d == 5 {
        "5"
    } else if d == 6 {
        "6"
    } else if d == 7 {
        "7"
    } else if d == 8 {
        "8"
    } else {
        "9"
    };
    proof {
        reveal_strlit("0");
        reveal_strlit("1");
        reveal_strlit("2");
        reveal_strlit("3");
        reveal_strlit("4");
        reveal_strlit("5");
        reveal_strlit("6");
        reveal_strlit("7");
        reveal_strlit("8");
        reveal_strlit("9");
        assert(r@ =~= seq![char_of_digit(d as nat)]);
    }
    r
}

/// Writes `n` in decimal, exactly as `dec_digits` describes.
pub fn encode_u32(n: u32) -> (s: String)
    ensures
        s@ == dec_digits(n as nat),
    decreases n,
{
    if n < 10 {
        String::from_str(digit_str(n))
    } else {
        let mut s = encode_u32(n / 10);
        s.append(digit_str(n % 10));
        s
    }
}

/// Appends the escaped form of `body` to `out`.
pub fn append_escaped(out: &mut String, body: &str)
    ensures
        final(out)@ == old(out)@ + esc(body@),
{
    let ghost out0 = old(out)@;
    let n = body.unicode_len();
    let mut i: usize = 0;
    while i < n
        invariant
            i <= n,
            n == body@.len(),
            out@ == out0 + esc(body@.take(i as int)),
        decreases n - i,
    {
        let c = body.get_char(i);
        if c == '"' {
            out.append("\\\"");
        } else if c == '\\' {
            out.append("\\\\");
        } else {
            out.append(body.substring_char(i, i + 1));
        }
        proof {
            reveal_strlit("\\\"");
            reveal_strlit("\\\\");
            let pre = body@.take(i as int);
            let c = body@[i as int];
            assert(body@.take(i + 1) =~= pre + seq![c]);
            lemma_esc_concat(pre, seq![c]);
            assert(seq![c].drop_first() =~= Seq::<char>::empty());
            assert(esc(Seq::<char>::empty()) =~= Seq::<char>::empty());
            assert(esc_char(c) + Seq::<char>::empty() =~= esc_char(c));
            assert(esc(seq![c]) =~= esc_char(c));
            assert(body@.subrange(i as int, i + 1) =~= seq![c]);
            assert(out@ =~= out0 + esc(body@.take(i + 1)));
        }
        i += 1;
    }
    assert(body@.take(n as int) =~= body@);
}

pub open spec fn prepend_parsed(pre: Seq<char>, r: Option<(Seq<char>, Seq<char>)>) -> Option<
    (Seq<char>, Seq<char>),
> {
    match r {
        None => None,
        Some((v, rest)) => Some((pre + v, rest)),
    }
}

/// Reads a quoted string body starting at character `i` of `s` (just
/// after the opening quote). On success returns the unescaped content
/// and the position just after the closing quote.
pub fn parse_string_body(s: &str, i: usize) -> (r: Option<(String, usize)>)
    requires
        i <= s@.len(),
    ensures
        match r {
            Some(v) => i <= v.1 <= s@.len() && p_string(s@.skip(i as int)) == Some(
                (v.0@, s@.skip(v.1 as int)),
            ),
            None => p_string(s@.skip(i as int)) is None,
        },
{
    let n = s.unicode_len();
    let mut out = String::new();
    let mut k = i;
    loop
        invariant
            i <= k <= n,
            n == s@.len(),
            p_string(s@.skip(i as int)) == prepend_parsed(out@, p_string(s@.skip(k as int))),
        decreases n - k,
    {
        if k >= n {
            assert(s@.skip(k as int) =~= Seq::<char>::empty());
            return None;
        }
        let c = s.get_char(k);
        proof {
            assert(s@.skip(k as int)[0] == s@[k as int]);
        }
        if c == '"' {
            proof {
                assert(s@.skip(k as int).drop_first() =~= s@.skip(k + 1));
                assert(out@ + Seq::<char>::empty() =~= out@);
            }
            return Some((out, k + 1));
        } else if c == '\\' {
            if k + 1 < n {
                let c2 = s.get_char(k + 1);
                proof {
                    assert(s@.skip(k as int)[1] == s@[k + 1]);
                }
                if c2 == '"' || c2 == '\\' {
                    proof {
                        let rem = s@.skip(k as int);
                        assert(rem.skip(2) =~= s@.skip(k + 2));
                        match p_string(s@.skip(k + 2)) {
                            None => {},
                            Some((v, rest)) => {
                                assert(out@ + (seq![c2] + v) =~= (out@ + seq![c2]) + v);
                            },
                        }
                        assert(s@.subrange(k + 1, k + 2) =~= seq![c2]);
                    }
                    out.append(s.substring_char(k + 1, k + 2));
                    k = k + 2;
                } else {
                    return None;
                }
            } else {
                assert(s@.skip(k as int).len() == 1);
                return None;
            }
        } else {
            proof {
                let rem = s@.skip(k as int);
                assert(rem.drop_first() =~= s@.skip(k + 1));
                match p_string(s@.skip(k + 1)) {
                    None => {},
                    Some((v, rest)) => {
                        assert(out@ + (seq![c] + v) =~= (out@ + seq![c]) + v);
                    },
                }
                assert(s@.subrange(k as int, k + 1) =~= seq![c]);
            }
            out.append(s.substring_char(k, k + 1));
            k = k + 1;
        }
    }
}

fn is_digit_exec(c: char) -> (b: bool)
    ensures
        b == is_digit(c),
{
    c >= '0' && c <= '9'
}

/// Reads an unsigned decimal number starting at character `i`. Returns
/// `None` when no digit stands there or the value does not fit in `u32`.
pub fn parse_u32(s: &str, i: usize) -> (r: Option<(u32, usize)>)
    requires
        i <= s@.len(),
    ensures
        match r {
            Some(v) => i <= v.1 <= s@.len() && p_number(s@.skip(i as int)) == Some(
                (v.0 as nat, s@.skip(v.1 as int)),
            ),
            None => match p_number(s@.skip(i as int)) {
                None => true,
                Some((m, _)) => m > u32::MAX,
            },
        },
{
    let n = s.unicode_len();
    let mut acc: u64 = 0;
    let mut k = i;
    let ghost whole = p_digits(s@.skip(i as int));
    loop
        invariant
            i <= k <= n,
            n == s@.len(),
            whole == p_digits(s@.skip(i as int)),
            all_digits(s@.subrange(i as int, k as int)),
            whole.0 == s@.subrange(i as int, k as int) + p_digits(s@.skip(k as int)).0,
            whole.1 == p_digits(s@.skip(k as int)).1,
            acc == dec_val(s@.subrange(i as int, k as int)),
            acc <= u32::MAX,
        decreases n - k,
    {
        let ghost dpre = s@.subrange(i as int, k as int);
        if k >= n {
            assert(s@.skip(k as int) =~= Seq::<char>::empty());
            assert(whole.0 =~= dpre);
            if k == i {
                assert(dpre =~= Seq::<char>::empty());
                return None;
            }
            assert(s@.skip(k as int) =~= whole.1);
            return Some((acc as u32, k));
        }
        let c = s.get_char(k);
        proof {
            assert(s@.skip(k as int)[0] == s@[k as int]);
        }
        if !is_digit_exec(c) {
            assert(p_digits(s@.skip(k as int)).0 =~= Seq::<char>::empty());
            assert(whole.0 =~= dpre);
            if k == i {
                assert(dpre =~= Seq::<char>::empty());
                return None;
            }
            assert(s@.skip(k as int) =~= whole.1);
            return Some((acc as u32, k));
        }
        let d: u32 = (c as u32) - 48;
        proof {
            let rem = s@.skip(k as int);
            assert(rem.drop_first() =~= s@.skip(k + 1));
            let dpre2 = s@.subrange(i as int, k + 1);
            assert(dpre2 =~= dpre + seq![c]);
            assert(dpre2.drop_last() =~= dpre);
            assert(dpre2.last() == c);
            assert(dec_val(dpre2) == acc * 10 + digit_val(c));
            assert(digit_val(c) == d);
            assert(seq![c] + p_digits(s@.skip(k + 1)).0 =~= p_digits(rem).0);
            assert(dpre + (seq![c] + p_digits(s@.skip(k + 1)).0) =~= dpre2 + p_digits(
                s@.skip(k + 1),
            ).0);
        }
        let next: u64 = acc * 10 + (d as u64);
        if next > 0xffff_ffff {
            proof {
                let dpre2 = s@.subrange(i as int, k + 1);
                lemma_dec_val_append(dpre2, p_digits(s@.skip(k + 1)).0);
                assert(dec_val(whole.0) >= dec_val(dpre2));
                assert(whole.0.len() > 0);
            }
            return None;
        }
        acc = next;
        k = k + 1;
    }
}

} // verus!
