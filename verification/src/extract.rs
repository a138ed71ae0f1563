//! The annotation grammar and its extractor.
//!
//! An annotation is a bracketed token inside a commit message: `[`, an
//! optional completion keyword (`finishes` followed by one whitespace
//! character), then `#`, one or more decimal digits, and `]`. Extraction
//! returns the digit runs of all non-overlapping tokens, scanning left to
//! right; everything else in the message is ignored.

use vstd::prelude::*;

verus! {

/// An ASCII decimal digit, as allowed inside an annotation's identifier; the
/// digit run is the identifier sent verbatim to the remote service.
pub open spec fn is_digit_char(c: char) -> bool {
    48 <= c as u32 && c as u32 <= 57
}

/// The whitespace accepted between the completion keyword and `#`: the code
/// points with Unicode's White_Space property, as char::is_whitespace
/// documents them.
pub open spec fn is_space_char(c: char) -> bool {
    ||| (9 <= c as u32 && c as u32 <= 13)
    ||| c as u32 == 32
    ||| c as u32 == 0x85
    ||| c as u32 == 0xa0
    ||| c as u32 == 0x1680
    ||| (0x2000 <= c as u32 && c as u32 <= 0x200a)
    ||| c as u32 == 0x2028
    ||| c as u32 == 0x2029
    ||| c as u32 == 0x202f
    ||| c as u32 == 0x205f
    ||| c as u32 == 0x3000
}

/// The completion keyword `finishes` followed by one whitespace character,
/// read at position `i` (the position just after `[`).
pub open spec fn has_keyword_at(s: Seq<char>, i: int) -> bool {
    &&& 0 <= i
    &&& i + 8 < s.len()
    &&& s[i] == 'f'
    &&& s[i + 1] == 'i'
    &&& s[i + 2] == 'n'
    &&& s[i + 3] == 'i'
    &&& s[i + 4] == 's'
    &&& s[i + 5] == 'h'
    &&& s[i + 6] == 'e'
    &&& s[i + 7] == 's'
    &&& is_space_char(s[i + 8])
}

/// Distance from the position just after `[` to the `#`: past the optional
/// completion keyword if it is there, zero otherwise.
pub open spec fn marker_offset(s: Seq<char>, i: int) -> int {
    if has_keyword_at(s, i) {
        9
    } else {
        0
    }
}

/// First position at or after `j` that does not hold a digit.
pub open spec fn digits_end(s: Seq<char>, j: int) -> int
    decreases s.len() - j,
{
    if 0 <= j && j < s.len() && is_digit_char(s[j]) {
        digits_end(s, j + 1)
    } else {
        j
    }
}

proof fn lemma_digits_end_ge(s: Seq<char>, j: int)
    ensures
        digits_end(s, j) >= j,
    decreases s.len() - j,
{
    if 0 <= j && j < s.len() && is_digit_char(s[j]) {
        lemma_digits_end_ge(s, j + 1);
    }
}

/// An annotation token read at position `i`. `Some((ds, de))` means the token
/// spans `s[i .. de + 1]` and its identifier is the digit run `s[ds .. de]`.
pub open spec fn match_at(s: Seq<char>, i: int) -> Option<(int, int)> {
    if 0 <= i && i < s.len() && s[i] == '[' {
        let p = i + 1 + marker_offset(s, i + 1);
        if p < s.len() && s[p] == '#' {
            let de = digits_end(s, p + 1);
            if p + 1 < de && de < s.len() && s[de] == ']' {
                Some((p + 1, de))
            } else {
                None
            }
        } else {
            None
        }
    } else {
        None
    }
}

/// Identifiers of all annotation tokens at or after position `i`, leftmost
/// first; a matched token is skipped whole, so tokens never overlap.
pub open spec fn extract_ids_from(s: Seq<char>, i: int) -> Seq<Seq<char>>
    decreases s.len() - i,
    when i >= 0
    via extract_ids_from_decreases
{
    if i >= s.len() {
        Seq::empty()
    } else {
        match match_at(s, i) {
            Some(span) => seq![s.subrange(span.0, span.1)] + extract_ids_from(s, span.1 + 1),
            None => extract_ids_from(s, i + 1),
        }
    }
}

#[via_fn]
proof fn extract_ids_from_decreases(s: Seq<char>, i: int) {
    if i < s.len() && match_at(s, i) is Some {
        let p = i + 1 + marker_offset(s, i + 1);
        lemma_digits_end_ge(s, p + 1);
    }
}

/// The identifiers referenced by one message, in order of appearance.
pub open spec fn extract_spec(s: Seq<char>) -> Seq<Seq<char>> {
    extract_ids_from(s, 0)
}

fn is_digit(c: char) -> (r: bool)
    ensures
        r == is_digit_char(c),
{
    (c as u32) >= 48 && (c as u32) <= 57
}

fn is_space(c: char) -> (r: bool)
    ensures
        r == is_space_char(c),
{
    let u: u32 = c as u32;
    (9 <= u && u <= 13) || u == 32 || u == 0x85 || u == 0xa0 || u == 0x1680 || (0x2000 <= u && u
        <= 0x200a) || u == 0x2028 || u == 0x2029 || u == 0x202f || u == 0x205f || u == 0x3000
}

/// Reads one annotation token at position `i`, mirroring `match_at`.
fn try_match_at(s: &str, i: usize, n: usize) -> (r: Option<(usize, usize)>)
    requires
        n == s@.len(),
        i < n,
    ensures
        match r {
            Some(span) => match_at(s@, i as int) == Some((span.0 as int, span.1 as int))
                && i < span.1 && span.1 < n,
            None => match_at(s@, i as int) is None,
        },
{
    if s.get_char(i) != '[' {
        return None;
    }
    let has_kw = n - i > 9 && s.get_char(i + 1) == 'f' && s.get_char(i + 2) == 'i' && s.get_char(
        i + 3,
    ) == 'n' && s.get_char(i + 4) == 'i' && s.get_char(i + 5) == 's' && s.get_char(i + 6) == 'h'
        && s.get_char(i + 7) == 'e' && s.get_char(i + 8) == 's' && is_space(s.get_char(i + 9));
    assert(has_kw == has_keyword_at(s@, i + 1));
    let p = if has_kw {
        i + 10
    } else {
        i + 1
    };
    if p >= n {
        return None;
    }
    if s.get_char(p) != '#' {
        return None;
    }
    let mut j = p + 1;
    while j < n && is_digit(s.get_char(j))
        invariant
            n == s@.len(),
            p + 1 <= j <= n,
            digits_end(s@, p + 1 as int) == digits_end(s@, j as int),
        decreases n - j,
    {
        j = j + 1;
    }
    assert(digits_end(s@, p + 1 as int) == j);
    if j == p + 1 {
        return None;
    }
    if j >= n {
        return None;
    }
    if s.get_char(j) != ']' {
        return None;
    }
    Some((p + 1, j))
}

/// The identifiers referenced by `message`, leftmost first, as the grammar
/// `extract_spec` reads them. A message with no annotation yields an empty
/// list; duplicates are kept.
pub fn extract(message: &str) -> (ids: Vec<String>)
    ensures
        ids.deep_view() == extract_spec(message@),
{
    let n = message.unicode_len();
    let mut ids: Vec<String> = Vec::new();
    let mut i: usize = 0;
    while i < n
        invariant
            n == message@.len(),
            i <= n,
            extract_spec(message@) == ids.deep_view() + extract_ids_from(message@, i as int),
        decreases n - i,
    {
        match try_match_at(message, i, n) {
            Some(span) => {
                let ghost pre = ids.deep_view();
                let id = message.substring_char(span.0, span.1).to_owned();
                ids.push(id);
                proof {
                    assert(ids.deep_view() =~= pre.push(id@));
                    assert(pre.push(id@) + extract_ids_from(message@, span.1 + 1) =~= pre + (seq![
                        id@,
                    ] + extract_ids_from(message@, span.1 + 1)));
                }
                i = span.1 + 1;
            },
            None => {
                i = i + 1;
            },
        }
    }
    proof {
        assert(ids.deep_view() + extract_ids_from(message@, n as int) =~= ids.deep_view());
    }
    ids
}

} // verus!
