//! The link extractor: a deliberately naive scan of page text for
//! `href="..."` attribute values. One candidate per line, in line order;
//! only candidates that begin with an `http` scheme prefix are kept.
//! No deduplication, no relative-URL resolution, no entity decoding.

use vstd::prelude::*;

use crate::codec::match_lit;

verus! {

/// `pat` occurs in `s` at position `i`.
pub open spec fn is_match_at(s: Seq<char>, pat: Seq<char>, i: int) -> bool {
    0 <= i && i + pat.len() <= s.len() && s.subrange(i, i + pat.len()) == pat
}

/// The position of the first occurrence of `pat` in `s` at or after `i`.
pub open spec fn first_match_from(s: Seq<char>, pat: Seq<char>, i: int) -> Option<int>
    decreases s.len() - i,
{
    if i < 0 || pat.len() < 1 || i + pat.len() > s.len() {
        None
    } else if is_match_at(s, pat, i) {
        Some(i)
    } else {
        first_match_from(s, pat, i + 1)
    }
}

/// A found position lies between the start of the search and the end of
/// the text, with room for the pattern.
pub proof fn lemma_first_match_in_range(s: Seq<char>, pat: Seq<char>, i: int)
    ensures
        first_match_from(s, pat, i) matches Some(j) ==> i <= j && 0 <= j && j + pat.len()
            <= s.len() && pat.len() >= 1,
    decreases s.len() - i,
{
    if !(i < 0 || pat.len() < 1 || i + pat.len() > s.len()) && !is_match_at(s, pat, i) {
        lemma_first_match_in_range(s, pat, i + 1);
    }
}

pub open spec fn href_marker() -> Seq<char> {
    seq!['h', 'r', 'e', 'f', '=', '"']
}

pub open spec fn http_prefix() -> Seq<char> {
    seq!['h', 't', 't', 'p']
}

pub open spec fn starts_with(s: Seq<char>, p: Seq<char>) -> bool {
    p.len() <= s.len() && s.subrange(0, p.len() as int) == p
}

/// The candidate link of one line: the text between the first
/// `href="` marker and the next quote, kept only when it starts with
/// `http`. A missing marker, an unterminated value, or another scheme
/// yields nothing.
pub open spec fn line_link(line: Seq<char>) -> Option<Seq<char>> {
    match first_match_from(line, href_marker(), 0) {
        None => None,
        Some(m) => {
            let rest = line.skip(m + 6);
            match first_match_from(rest, seq!['"'], 0) {
                None => None,
                Some(e) => {
                    let cand = rest.take(e);
                    if starts_with(cand, http_prefix()) {
                        Some(cand)
                    } else {
                        None
                    }
                },
            }
        },
    }
}

/// A trailing carriage return is not part of a line's text.
pub open spec fn strip_cr(line: Seq<char>) -> Seq<char> {
    if line.len() > 0 && line.last() == '\r' {
        line.drop_last()
    } else {
        line
    }
}

/// The lines of `s`, split at `'\n'`, each with one trailing `'\r'`
/// removed; a final line terminator produces no empty last line.
pub open spec fn spec_lines(s: Seq<char>) -> Seq<Seq<char>>
    decreases s.len(),
    via spec_lines_dec
{
    if s.len() == 0 {
        Seq::empty()
    } else {
        match first_match_from(s, seq!['\n'], 0) {
            None => seq![strip_cr(s)],
            Some(j) => seq![strip_cr(s.take(j))] + spec_lines(s.skip(j + 1)),
        }
    }
}

#[via_fn]
proof fn spec_lines_dec(s: Seq<char>) {
    lemma_first_match_in_range(s, seq!['\n'], 0);
}

pub open spec fn links_of_lines(lines: Seq<Seq<char>>) -> Seq<Seq<char>>
    decreases lines.len(),
{
    if lines.len() == 0 {
        Seq::empty()
    } else {
        match line_link(lines.first()) {
            Some(l) => seq![l] + links_of_lines(lines.drop_first()),
            None => links_of_lines(lines.drop_first()),
        }
    }
}

/// All links of a page, in document order: line order first, and within
/// a line the first match only.
pub open spec fn spec_links(page: Seq<char>) -> Seq<Seq<char>> {
    links_of_lines(spec_lines(page))
}

/// Searching from `i` is searching the suffix that starts at `i`.
proof fn lemma_first_match_shift(s: Seq<char>, pat: Seq<char>, i: int, k: int)
    requires
        0 <= k <= i,
        k <= s.len(),
        pat.len() >= 1,
    ensures
        first_match_from(s, pat, i) == match first_match_from(s.skip(k), pat, i - k) {
            None => None::<int>,
            Some(j) => Some(j + k),
        },
    decreases s.len() - i,
{
    assert(s.skip(k).len() == s.len() - k);
    if i + pat.len() > s.len() {
        assert(first_match_from(s, pat, i) is None);
        assert(first_match_from(s.skip(k), pat, i - k) is None);
    } else {
        assert(s.skip(k).subrange(i - k, i - k + pat.len()) =~= s.subrange(i, i + pat.len()));
        if is_match_at(s, pat, i) {
            assert(is_match_at(s.skip(k), pat, i - k));
            assert(first_match_from(s, pat, i) == Some(i));
            assert(first_match_from(s.skip(k), pat, i - k) == Some(i - k));
        } else {
            assert(!is_match_at(s.skip(k), pat, i - k));
            lemma_first_match_shift(s, pat, i + 1, k);
            assert(first_match_from(s, pat, i) == first_match_from(s, pat, i + 1));
            assert(first_match_from(s.skip(k), pat, i - k) == first_match_from(
                s.skip(k),
                pat,
                i - k + 1,
            ));
        }
    }
}

/// Finds the first occurrence of `pat` in `s` at or after character `i`.
fn find_from(s: &str, i: usize, pat: &str) -> (r: Option<usize>)
    requires
        i <= s@.len(),
        pat@.len() >= 1,
    ensures
        match r {
            Some(j) => i <= j && j + pat@.len() <= s@.len() && first_match_from(
                s@,
                pat@,
                i as int,
            ) == Some(j as int),
            None => first_match_from(s@, pat@, i as int) is None,
        },
{
    let n = s.unicode_len();
    let m = pat.unicode_len();
    if m > n {
        return None;
    }
    let mut j = i;
    while j <= n - m
        invariant
            i <= j <= n,
            1 <= m <= n,
            n == s@.len(),
            m == pat@.len(),
            first_match_from(s@, pat@, i as int) == first_match_from(s@, pat@, j as int),
        decreases n - j,
    {
        if match_lit(s, j, pat) {
            return Some(j);
        }
        assert(!is_match_at(s@, pat@, j as int));
        j += 1;
    }
    None
}

fn has_http_prefix(s: &str) -> (b: bool)
    ensures
        b == starts_with(s@, http_prefix()),
{
    proof {
        reveal_strlit("http");
        assert("http"@ =~= http_prefix());
    }
    match_lit(s, 0, "http")
}

/// The candidate link of one line, exactly as `line_link` describes.
fn line_link_exec(line: &str) -> (r: Option<String>)
    ensures
        match r {
            Some(l) => line_link(line@) == Some(l@),
            None => line_link(line@) is None,
        },
{
    proof {
        reveal_strlit("href=\"");
        assert("href=\""@ =~= href_marker());
        reveal_strlit("\"");
        assert("\""@ =~= seq!['"']);
    }
    match find_from(line, 0, "href=\"") {
        None => None,
        Some(m) => {
            let n = line.unicode_len();
            let rest = line.substring_char(m + 6, n);
            proof {
                assert(rest@ =~= line@.skip(m + 6));
            }
            match find_from(rest, 0, "\"") {
                None => None,
                Some(e) => {
                    let cand = rest.substring_char(0, e);
                    proof {
                        assert(cand@ =~= rest@.take(e as int));
                    }
                    if has_http_prefix(cand) {
                        Some(String::from_str(cand))
                    } else {
                        None
                    }
                },
            }
        },
    }
}

/// Scans page text for `href` links: one candidate per line, first match
/// in the line, kept only with an `http` scheme prefix, in document
/// order. Returns exactly what `spec_links` describes.
pub fn get_links(page: &str) -> (links: Vec<String>)
    ensures
        links.deep_view() == spec_links(page@),
{
    proof {
        reveal_strlit("\n");
        assert("\n"@ =~= seq!['\n']);
    }
    let n = page.unicode_len();
    let mut links: Vec<String> = Vec::new();
    let mut pos: usize = 0;
    proof {
        assert(links.deep_view() =~= Seq::<Seq<char>>::empty());
        assert(Seq::<Seq<char>>::empty() + spec_links(page@) =~= spec_links(page@));
        assert(page@.skip(0) =~= page@);
    }
    while pos < n
        invariant
            pos <= n,
            n == page@.len(),
            links.deep_view() + links_of_lines(spec_lines(page@.skip(pos as int))) == spec_links(
                page@,
            ),
        decreases n - pos,
    {
        proof {
            reveal_strlit("\n");
            assert("\n"@ =~= seq!['\n']);
        }
        let ghost rem = page@.skip(pos as int);
        let ghost lines = spec_lines(rem);
        let (line, next) = match find_from(page, pos, "\n") {
            Some(j) => {
                proof {
                    lemma_first_match_shift(page@, seq!['\n'], pos as int, pos as int);
                    assert(first_match_from(rem, seq!['\n'], 0) == Some(j - pos));
                    assert(rem.take(j - pos) =~= page@.subrange(pos as int, j as int));
                    assert(rem.skip(j - pos + 1) =~= page@.skip(j + 1));
                }
                (page.substring_char(pos, j), j + 1)
            },
            None => {
                proof {
                    lemma_first_match_shift(page@, seq!['\n'], pos as int, pos as int);
                    assert(first_match_from(rem, seq!['\n'], 0) is None);
                    assert(rem =~= page@.subrange(pos as int, n as int));
                    assert(page@.skip(n as int) =~= Seq::<char>::empty());
                }
                (page.substring_char(pos, n), n)
            },
        };
        proof {
            // either way the remaining text splits into this line and the rest
            assert(lines.len() >= 1);
            assert(lines.first() == strip_cr(line@));
            assert(lines.drop_first() =~= spec_lines(page@.skip(next as int)));
        }
        let stripped = strip_cr_exec(line);
        match line_link_exec(stripped) {
            Some(l) => {
                let ghost dv0 = links.deep_view();
                proof {
                    assert(links_of_lines(lines) == seq![l@] + links_of_lines(lines.drop_first()));
                }
                links.push(l);
                proof {
                    assert(links.deep_view() =~= dv0.push(l@));
                    assert(dv0.push(l@) + links_of_lines(lines.drop_first()) =~= dv0
                        + links_of_lines(lines));
                }
            },
            None => {
                proof {
                    assert(links_of_lines(lines) == links_of_lines(lines.drop_first()));
                }
            },
        }
        pos = next;
    }
    proof {
        assert(page@.skip(pos as int) =~= Seq::<char>::empty());
        assert(links_of_lines(spec_lines(Seq::<char>::empty())) =~= Seq::<Seq<char>>::empty());
        assert(links.deep_view() + Seq::<Seq<char>>::empty() =~= links.deep_view());
    }
    links
}

/// Removes one trailing carriage return, as `strip_cr` describes.
fn strip_cr_exec(line: &str) -> (r: &str)
    ensures
        r@ == strip_cr(line@),
{
    let n = line.unicode_len();
    if n > 0 && line.get_char(n - 1) == '\r' {
        let r = line.substring_char(0, n - 1);
        proof {
            assert(r@ =~= line@.drop_last());
        }
        r
    } else {
        line
    }
}

} // verus!
