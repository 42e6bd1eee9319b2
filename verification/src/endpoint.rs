use vstd::prelude::*;

use crate::models::opt_str_view;

verus! {

/// An ASCII decimal digit.
pub open spec fn is_digit(c: char) -> bool {
    48 <= c as u32 <= 57
}

/// A word character for token boundaries: a digit, an ASCII letter or an
/// underscore.
pub open spec fn is_word(c: char) -> bool {
    is_digit(c) || (97 <= c as u32 <= 122) || (65 <= c as u32 <= 90) || c as u32 == 95
}

/// Length of the run of digits starting at position `i`.
pub open spec fn digit_run(s: Seq<char>, i: int) -> int
    decreases s.len() - i,
{
    if 0 <= i && i < s.len() && is_digit(s[i]) {
        1 + digit_run(s, i + 1)
    } else {
        0
    }
}

/// A digit run stays inside the text and consists of digits.
pub proof fn lemma_digit_run_bounds(s: Seq<char>, i: int)
    requires
        0 <= i <= s.len(),
    ensures
        0 <= digit_run(s, i),
        i + digit_run(s, i) <= s.len(),
    decreases s.len() - i,
{
    if i < s.len() && is_digit(s[i]) {
        lemma_digit_run_bounds(s, i + 1);
    }
}

/// End position of an `a.b.c.d:port` token starting at `i`: four runs of
/// one to three digits separated by dots, a colon, and at least one port
/// digit, with no word character directly after the port.
pub open spec fn match_end(s: Seq<char>, i: int) -> Option<int> {
    let l1 = digit_run(s, i);
    if !(1 <= l1 <= 3 && i + l1 < s.len() && s[i + l1] == '.') {
        None
    } else {
        let p2 = i + l1 + 1;
        let l2 = digit_run(s, p2);
        if !(1 <= l2 <= 3 && p2 + l2 < s.len() && s[p2 + l2] == '.') {
            None
        } else {
            let p3 = p2 + l2 + 1;
            let l3 = digit_run(s, p3);
            if !(1 <= l3 <= 3 && p3 + l3 < s.len() && s[p3 + l3] == '.') {
                None
            } else {
                let p4 = p3 + l3 + 1;
                let l4 = digit_run(s, p4);
                if !(1 <= l4 <= 3 && p4 + l4 < s.len() && s[p4 + l4] == ':') {
                    None
                } else {
                    let p5 = p4 + l4 + 1;
                    let lp = digit_run(s, p5);
                    if lp < 1 {
                        None
                    } else {
                        let e = p5 + lp;
                        if e < s.len() && is_word(s[e]) {
                            None
                        } else {
                            Some(e)
                        }
                    }
                }
            }
        }
    }
}

/// An endpoint token starts at `i`: `i` sits on a word boundary and the
/// token's shape is satisfied from there.
pub open spec fn matches_at(s: Seq<char>, i: int) -> bool {
    &&& 0 <= i < s.len()
    &&& (i == 0 || !is_word(s[i - 1]))
    &&& match_end(s, i) is Some
}

/// Start of the leftmost endpoint token at or after `i`.
pub open spec fn first_match_from(s: Seq<char>, i: int) -> Option<int>
    decreases s.len() - i,
{
    if 0 <= i && i < s.len() {
        if matches_at(s, i) {
            Some(i)
        } else {
            first_match_from(s, i + 1)
        }
    } else {
        None
    }
}

/// The leftmost endpoint token of the text, if any.
pub open spec fn spec_extract(s: Seq<char>) -> Option<Seq<char>> {
    match first_match_from(s, 0) {
        Some(i) => Some(s.subrange(i, match_end(s, i)->0)),
        None => None,
    }
}

/// Whether the character at `j` is a digit.
fn digit_at(s: &str, j: usize) -> (r: bool)
    requires
        j < s@.len(),
    ensures
        r == is_digit(s@[j as int]),
{
    let c = s.get_char(j);
    48 <= c as u32 && c as u32 <= 57
}

/// Whether the character at `j` is a word character.
fn word_at(s: &str, j: usize) -> (r: bool)
    requires
        j < s@.len(),
    ensures
        r == is_word(s@[j as int]),
{
    let c = s.get_char(j);
    let u = c as u32;
    (48 <= u && u <= 57) || (97 <= u && u <= 122) || (65 <= u && u <= 90) || u == 95
}

/// Measures the digit run starting at `i`.
fn run_at(s: &str, n: usize, i: usize) -> (r: usize)
    requires
        n == s@.len(),
        i <= n,
    ensures
        r == digit_run(s@, i as int),
        i + r <= n,
{
    proof {
        lemma_digit_run_bounds(s@, i as int);
    }
    let mut j: usize = i;
    while j < n && digit_at(s, j)
        invariant
            n == s@.len(),
            i <= j <= n,
            digit_run(s@, i as int) == j - i + digit_run(s@, j as int),
        decreases n - j,
    {
        proof {
            lemma_digit_run_bounds(s@, j + 1);
        }
        j = j + 1;
    }
    j - i
}

/// Checks for a full endpoint token starting at `i`, giving its end.
fn check_at(s: &str, n: usize, i: usize) -> (r: Option<usize>)
    requires
        n == s@.len(),
        i < n,
    ensures
        match r {
            Some(e) => match_end(s@, i as int) == Some(e as int) && i < e <= n,
            None => match_end(s@, i as int) is None,
        },
{
    let l1 = run_at(s, n, i);
    if !(1 <= l1 && l1 <= 3 && i + l1 < n && s.get_char(i + l1) == '.') {
        return None;
    }
    let p2 = i + l1 + 1;
    let l2 = run_at(s, n, p2);
    if !(1 <= l2 && l2 <= 3 && p2 + l2 < n && s.get_char(p2 + l2) == '.') {
        return None;
    }
    let p3 = p2 + l2 + 1;
    let l3 = run_at(s, n, p3);
    if !(1 <= l3 && l3 <= 3 && p3 + l3 < n && s.get_char(p3 + l3) == '.') {
        return None;
    }
    let p4 = p3 + l3 + 1;
    let l4 = run_at(s, n, p4);
    if !(1 <= l4 && l4 <= 3 && p4 + l4 < n && s.get_char(p4 + l4) == ':') {
        return None;
    }
    let p5 = p4 + l4 + 1;
    let lp = run_at(s, n, p5);
    if lp < 1 {
        return None;
    }
    let e = p5 + lp;
    if e < n && word_at(s, e) {
        return None;
    }
    Some(e)
}

/// Scans orchestrator status output for the first `ip:port` token.
/// Returns the token, or `None` when the text holds none.
pub fn extract_endpoint(s: &str) -> (r: Option<String>)
    ensures
        opt_str_view(r) == spec_extract(s@),
{
    let n = s.unicode_len();
    let mut i: usize = 0;
    while i < n
        invariant
            n == s@.len(),
            i <= n,
            first_match_from(s@, 0) == first_match_from(s@, i as int),
        decreases n - i,
    {
        let boundary = if i == 0 {
            true
        } else {
            !word_at(s, i - 1)
        };
        if boundary {
            match check_at(s, n, i) {
                Some(e) => {
                    proof {
                        assert(matches_at(s@, i as int));
                        assert(first_match_from(s@, i as int) == Some(i as int));
                    }
                    let tok = s.substring_char(i, e).to_owned();
                    return Some(tok);
                },
                None => {
                    proof {
                        assert(!matches_at(s@, i as int));
                    }
                },
            }
        } else {
            proof {
                assert(!matches_at(s@, i as int));
            }
        }
        i = i + 1;
    }
    None
}

} // verus!
