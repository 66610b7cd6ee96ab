//! The version-header pattern.
//!
//! A header is the line that opens one changelog entry.  It reads
//! `## [`, an optional single `v` or `V`, three dot-separated runs of
//! decimal digits, `] - `, and a `YYYY-MM-DD` date.  Headers are found by
//! a purely lexical left-to-right scan; nothing is assumed about the
//! version numbers themselves.

use vstd::prelude::*;
use vstd::string::StrSliceExecFns;

verus! {

/// A decimal digit.
pub open spec fn is_digit(c: char) -> bool {
    '0' as u32 <= c as u32 && c as u32 <= '9' as u32
}

/// Every character of `s` in the half-open range `[start, start + count)`
/// is a decimal digit.
pub open spec fn digits_at(s: Seq<char>, start: int, count: int) -> bool {
    forall|k: int| start <= k < start + count ==> is_digit(#[trigger] s[k])
}

/// The header pattern spelled out with explicit widths: at offset `i` the
/// text reads `## [`, then (when `p == 1`) a single `v` or `V`, then `a`
/// digits, `.`, `b` digits, `.`, `c` digits, then `] - `, then four
/// digits, `-`, two digits, `-`, two digits.
pub open spec fn header_shape_at(s: Seq<char>, i: int, p: int, a: int, b: int, c: int) -> bool {
    let major = i + 4 + p;
    let minor = major + a + 1;
    let patch = minor + b + 1;
    let close = patch + c;
    let date = close + 4;
    &&& 0 <= i
    &&& (p == 0 || p == 1)
    &&& 1 <= a
    &&& 1 <= b
    &&& 1 <= c
    &&& date + 10 <= s.len()
    &&& s[i] == '#'
    &&& s[i + 1] == '#'
    &&& s[i + 2] == ' '
    &&& s[i + 3] == '['
    &&& (p == 1 ==> (s[i + 4] == 'v' || s[i + 4] == 'V'))
    &&& digits_at(s, major, a)
    &&& s[major + a] == '.'
    &&& digits_at(s, minor, b)
    &&& s[minor + b] == '.'
    &&& digits_at(s, patch, c)
    &&& s[close] == ']'
    &&& s[close + 1] == ' '
    &&& s[close + 2] == '-'
    &&& s[close + 3] == ' '
    &&& digits_at(s, date, 4)
    &&& s[date + 4] == '-'
    &&& digits_at(s, date + 5, 2)
    &&& s[date + 7] == '-'
    &&& digits_at(s, date + 8, 2)
}

/// A version header begins at offset `i` of `s`: the pattern matches for
/// some choice of the optional prefix letter and of the three digit-run
/// widths.
pub open spec fn header_at(s: Seq<char>, i: int) -> bool {
    exists|p: int, a: int, b: int, c: int| header_shape_at(s, i, p, a, b, c)
}

/// Whether `c` is a decimal digit.
fn digit(c: char) -> (b: bool)
    ensures
        b == is_digit(c),
{
    let u: u32 = c as u32;
    '0' as u32 <= u && u <= '9' as u32
}

/// The first position at or after `from` that does not hold a decimal
/// digit, or the end of the text when the run reaches it.
fn digit_run_end(s: &str, from: usize, len: usize) -> (end: usize)
    requires
        len == s@.len(),
        from <= len,
    ensures
        from <= end <= len,
        digits_at(s@, from as int, end - from),
        end < len ==> !is_digit(s@[end as int]),
{
    let mut j: usize = from;
    while j < len
        invariant
            len == s@.len(),
            from <= j <= len,
            digits_at(s@, from as int, j - from),
        ensures
            from <= j <= len,
            digits_at(s@, from as int, j - from),
            j < len ==> !is_digit(s@[j as int]),
        decreases len - j,
    {
        let c = s.get_char(j);
        if !digit(c) {
            break;
        }
        j = j + 1;
    }
    j
}

/// A version component of a matching header is exactly the maximal digit
/// run that begins it: `width` digits starting at `start` followed by a
/// non-digit force `start + width` to equal the end `run_end` of that run.
proof fn lemma_run_width_forced(s: Seq<char>, start: int, width: int, run_end: int)
    requires
        0 <= start <= run_end <= s.len(),
        1 <= width,
        start + width < s.len(),
        digits_at(s, start, width),
        !is_digit(s[start + width]),
        digits_at(s, start, run_end - start),
        run_end < s.len() ==> !is_digit(s[run_end]),
    ensures
        start + width == run_end,
{
    if start + width < run_end {
        assert(is_digit(s[start + width]));
    }
    if start + width > run_end {
        assert(is_digit(s[run_end]));
    }
}

/// The shortest header: `## [` (4), one digit for each version component
/// with the two dots (5), `] - ` (4), and the date (10).
pub const MIN_HEADER_CHARS: usize = 23;

/// Decides whether a version header begins at offset `i` of `s`.
#[verifier::rlimit(100)]
pub fn header_match_at(s: &str, i: usize, len: usize) -> (m: bool)
    requires
        len == s@.len(),
        i <= len,
    ensures
        m == header_at(s@, i as int),
{
    let ghost ii: int = i as int;
    if len - i < MIN_HEADER_CHARS {
        proof {
            assert forall|p: int, a: int, b: int, c: int|
                !header_shape_at(s@, ii, p, a, b, c) by {}
        }
        return false;
    }
    let c0 = s.get_char(i);
    let c1 = s.get_char(i + 1);
    let c2 = s.get_char(i + 2);
    let c3 = s.get_char(i + 3);
    if !(c0 == '#' && c1 == '#' && c2 == ' ' && c3 == '[') {
        proof {
            assert forall|p: int, a: int, b: int, c: int|
                !header_shape_at(s@, ii, p, a, b, c) by {}
        }
        return false;
    }
    let c4 = s.get_char(i + 4);
    let ver: usize = if c4 == 'v' || c4 == 'V' {
        i + 5
    } else {
        i + 4
    };
    let ghost pw: int = ver - i - 4;
    let ghost vi: int = ver as int;
    proof {
        assert forall|p: int, a: int, b: int, c: int|
            header_shape_at(s@, ii, p, a, b, c) implies p == pw by {
            if p == 0 {
                assert(is_digit(s@[ii + 4]));
            }
        }
    }
    let e1 = digit_run_end(s, ver, len);
    if e1 == ver {
        proof {
            assert forall|p: int, a: int, b: int, c: int|
                !header_shape_at(s@, ii, p, a, b, c) by {
                if header_shape_at(s@, ii, p, a, b, c) {
                    assert(is_digit(s@[vi]));
                    assert(false);
                }
            }
        }
        return false;
    }
    if e1 == len {
        proof {
            assert forall|p: int, a: int, b: int, c: int|
                !header_shape_at(s@, ii, p, a, b, c) by {
                if header_shape_at(s@, ii, p, a, b, c) {
                    assert(is_digit(s@[vi + a]));
                    assert(false);
                }
            }
        }
        return false;
    }
    proof {
        assert forall|p: int, a: int, b: int, c: int|
            header_shape_at(s@, ii, p, a, b, c) implies a == e1 - vi by {
            lemma_run_width_forced(s@, vi, a, e1 as int);
        }
    }
    let d1 = s.get_char(e1);
    if d1 != '.' {
        proof {
            assert forall|p: int, a: int, b: int, c: int|
                !header_shape_at(s@, ii, p, a, b, c) by {
                if header_shape_at(s@, ii, p, a, b, c) {
                    assert(s@[vi + a] == '.');
                    assert(false);
                }
            }
        }
        return false;
    }
    let minor = e1 + 1;
    let ghost mi: int = minor as int;
    let e2 = digit_run_end(s, minor, len);
    if e2 == minor {
        proof {
            assert forall|p: int, a: int, b: int, c: int|
                !header_shape_at(s@, ii, p, a, b, c) by {
                if header_shape_at(s@, ii, p, a, b, c) {
                    assert(is_digit(s@[mi]));
                    assert(false);
                }
            }
        }
        return false;
    }
    if e2 == len {
        proof {
            assert forall|p: int, a: int, b: int, c: int|
                !header_shape_at(s@, ii, p, a, b, c) by {
                if header_shape_at(s@, ii, p, a, b, c) {
                    assert(is_digit(s@[mi + b]));
                    assert(false);
                }
            }
        }
        return false;
    }
    proof {
        assert forall|p: int, a: int, b: int, c: int|
            header_shape_at(s@, ii, p, a, b, c) implies b == e2 - mi by {
            lemma_run_width_forced(s@, mi, b, e2 as int);
        }
    }
    let d2 = s.get_char(e2);
    if d2 != '.' {
        proof {
            assert forall|p: int, a: int, b: int, c: int|
                !header_shape_at(s@, ii, p, a, b, c) by {
                if header_shape_at(s@, ii, p, a, b, c) {
                    assert(s@[mi + b] == '.');
                    assert(false);
                }
            }
        }
        return false;
    }
    let patch = e2 + 1;
    let ghost pi: int = patch as int;
    let e3 = digit_run_end(s, patch, len);
    if e3 == patch {
        proof {
            assert forall|p: int, a: int, b: int, c: int|
                !header_shape_at(s@, ii, p, a, b, c) by {
                if header_shape_at(s@, ii, p, a, b, c) {
                    assert(is_digit(s@[pi]));
                    assert(false);
                }
            }
        }
        return false;
    }
    proof {
        assert forall|p: int, a: int, b: int, c: int|
            header_shape_at(s@, ii, p, a, b, c) implies c == e3 - pi by {
            lemma_run_width_forced(s@, pi, c, e3 as int);
        }
    }
    if len - e3 < 14 {
        proof {
            assert forall|p: int, a: int, b: int, c: int|
                !header_shape_at(s@, ii, p, a, b, c) by {}
        }
        return false;
    }
    let b0 = s.get_char(e3);
    let b1 = s.get_char(e3 + 1);
    let b2 = s.get_char(e3 + 2);
    let b3 = s.get_char(e3 + 3);
    let date: usize = e3 + 4;
    let ghost di: int = date as int;
    let mut ok: bool = b0 == ']' && b1 == ' ' && b2 == '-' && b3 == ' ';
    ok = ok && digit(s.get_char(date)) && digit(s.get_char(date + 1)) && digit(
        s.get_char(date + 2),
    ) && digit(s.get_char(date + 3));
    ok = ok && s.get_char(date + 4) == '-';
    ok = ok && digit(s.get_char(date + 5)) && digit(s.get_char(date + 6));
    ok = ok && s.get_char(date + 7) == '-';
    ok = ok && digit(s.get_char(date + 8)) && digit(s.get_char(date + 9));
    proof {
        if ok {
            assert(digits_at(s@, di, 4));
            assert(digits_at(s@, di + 5, 2));
            assert(digits_at(s@, di + 8, 2));
            assert(header_shape_at(s@, ii, pw, e1 - vi, e2 - mi, e3 - pi));
            assert(header_at(s@, ii));
        } else {
            assert forall|p: int, a: int, b: int, c: int|
                !header_shape_at(s@, ii, p, a, b, c) by {
                if header_shape_at(s@, ii, p, a, b, c) {
                    assert(s@[e3 as int] == ']');
                    assert(s@[e3 + 1] == ' ');
                    assert(s@[e3 + 2] == '-');
                    assert(s@[e3 + 3] == ' ');
                    assert(is_digit(s@[di]) && is_digit(s@[di + 1]) && is_digit(s@[di + 2])
                        && is_digit(s@[di + 3]));
                    assert(s@[di + 4] == '-');
                    assert(is_digit(s@[di + 5]) && is_digit(s@[di + 6]));
                    assert(s@[di + 7] == '-');
                    assert(is_digit(s@[di + 8]) && is_digit(s@[di + 9]));
                    assert(false);
                }
            }
        }
    }
    ok
}

/// Digit runs move intact between texts that agree, up to an offset `d`,
/// on the characters of the run.
proof fn lemma_digits_at_moved(s: Seq<char>, t: Seq<char>, start: int, d: int, count: int)
    requires
        digits_at(s, start, count),
        forall|k: int| start <= k < start + count ==> #[trigger] t[k + d] == s[k],
    ensures
        digits_at(t, start + d, count),
{
    assert forall|k: int| start + d <= k < start + d + count implies is_digit(#[trigger] t[k]) by {
        assert(t[(k - d) + d] == s[k - d]);
        assert(is_digit(s[k - d]));
    }
}

/// A header carries over to a text that differs from `s` only in which of
/// the two prefix letters stands after `## [`.
proof fn lemma_prefix_letter_swap(s: Seq<char>, t: Seq<char>, i: int)
    requires
        0 <= i,
        i + 4 < s.len(),
        t.len() == s.len(),
        s[i + 4] == 'v' || s[i + 4] == 'V',
        t[i + 4] == 'v' || t[i + 4] == 'V',
        forall|k: int| 0 <= k < s.len() && k != i + 4 ==> #[trigger] t[k] == s[k],
        header_at(s, i),
    ensures
        header_at(t, i),
{
    let (p, a, b, c) = choose|p: int, a: int, b: int, c: int| header_shape_at(s, i, p, a, b, c);
    assert(header_shape_at(s, i, p, a, b, c));
    if p == 0 {
        assert(is_digit(s[i + 4]));
        assert(false);
    }
    let major = i + 5;
    let minor = major + a + 1;
    let patch = minor + b + 1;
    let date = patch + c + 4;
    assert forall|k: int| major <= k < major + a implies #[trigger] t[k + 0] == s[k] by {}
    lemma_digits_at_moved(s, t, major, 0, a);
    assert forall|k: int| minor <= k < minor + b implies #[trigger] t[k + 0] == s[k] by {}
    lemma_digits_at_moved(s, t, minor, 0, b);
    assert forall|k: int| patch <= k < patch + c implies #[trigger] t[k + 0] == s[k] by {}
    lemma_digits_at_moved(s, t, patch, 0, c);
    assert forall|k: int| date <= k < date + 4 implies #[trigger] t[k + 0] == s[k] by {}
    lemma_digits_at_moved(s, t, date, 0, 4);
    assert forall|k: int| date + 5 <= k < date + 5 + 2 implies #[trigger] t[k + 0] == s[k] by {}
    lemma_digits_at_moved(s, t, date + 5, 0, 2);
    assert forall|k: int| date + 8 <= k < date + 8 + 2 implies #[trigger] t[k + 0] == s[k] by {}
    lemma_digits_at_moved(s, t, date + 8, 0, 2);
    assert(header_shape_at(t, i, 1, a, b, c));
}

/// The prefix letter is case-insensitive on that single character:
/// whether a header begins at `i` does not change when the character
/// after `## [` is replaced by either letter.
pub proof fn lemma_prefix_letter_case_insensitive(s: Seq<char>, i: int, l: char)
    requires
        0 <= i,
        i + 4 < s.len(),
        s[i + 4] == 'v' || s[i + 4] == 'V',
        l == 'v' || l == 'V',
    ensures
        header_at(s, i) == header_at(s.update(i + 4, l), i),
{
    let t = s.update(i + 4, l);
    if header_at(s, i) {
        lemma_prefix_letter_swap(s, t, i);
    }
    if header_at(t, i) {
        lemma_prefix_letter_swap(t, s, i);
    }
}

/// The prefix letter is optional: inserting a `v` or `V` after the
/// `## [` of a text whose next character is no such letter neither makes
/// nor breaks a header at `i`.  Here `t` is `s` with `l` inserted at
/// offset `i + 4`.
pub proof fn lemma_prefix_letter_optional(s: Seq<char>, i: int, l: char, t: Seq<char>)
    requires
        0 <= i,
        i + 4 < s.len(),
        !(s[i + 4] == 'v' || s[i + 4] == 'V'),
        l == 'v' || l == 'V',
        t.len() == s.len() + 1,
        forall|k: int| 0 <= k < i + 4 ==> #[trigger] t[k] == s[k],
        t[i + 4] == l,
        forall|k: int| i + 4 < k < t.len() ==> #[trigger] t[k] == s[k - 1],
    ensures
        header_at(s, i) == header_at(t, i),
{
    if header_at(s, i) {
        let (p, a, b, c) = choose|p: int, a: int, b: int, c: int|
            header_shape_at(s, i, p, a, b, c);
        assert(header_shape_at(s, i, p, a, b, c));
        if p == 1 {
            assert(s[i + 4] == 'v' || s[i + 4] == 'V');
            assert(false);
        }
        let major = i + 4;
        let minor = major + a + 1;
        let patch = minor + b + 1;
        let date = patch + c + 4;
        assert forall|k: int| major <= k < major + a implies #[trigger] t[k + 1] == s[k] by {}
        lemma_digits_at_moved(s, t, major, 1, a);
        assert forall|k: int| minor <= k < minor + b implies #[trigger] t[k + 1] == s[k] by {}
        lemma_digits_at_moved(s, t, minor, 1, b);
        assert forall|k: int| patch <= k < patch + c implies #[trigger] t[k + 1] == s[k] by {}
        lemma_digits_at_moved(s, t, patch, 1, c);
        assert forall|k: int| date <= k < date + 4 implies #[trigger] t[k + 1] == s[k] by {}
        lemma_digits_at_moved(s, t, date, 1, 4);
        assert forall|k: int| date + 5 <= k < date + 7 implies #[trigger] t[k + 1] == s[k] by {}
        lemma_digits_at_moved(s, t, date + 5, 1, 2);
        assert forall|k: int| date + 8 <= k < date + 10 implies #[trigger] t[k + 1] == s[k] by {}
        lemma_digits_at_moved(s, t, date + 8, 1, 2);
        assert(header_shape_at(t, i, 1, a, b, c));
    }
    if header_at(t, i) {
        let (p, a, b, c) = choose|p: int, a: int, b: int, c: int|
            header_shape_at(t, i, p, a, b, c);
        assert(header_shape_at(t, i, p, a, b, c));
        if p == 0 {
            assert(is_digit(t[i + 4]));
            assert(false);
        }
        let major = i + 5;
        let minor = major + a + 1;
        let patch = minor + b + 1;
        let date = patch + c + 4;
        assert forall|k: int| major <= k < major + a implies #[trigger] s[k + (-1)] == t[k] by {}
        lemma_digits_at_moved(t, s, major, -1, a);
        assert forall|k: int| minor <= k < minor + b implies #[trigger] s[k + (-1)] == t[k] by {}
        lemma_digits_at_moved(t, s, minor, -1, b);
        assert forall|k: int| patch <= k < patch + c implies #[trigger] s[k + (-1)] == t[k] by {}
        lemma_digits_at_moved(t, s, patch, -1, c);
        assert forall|k: int| date <= k < date + 4 implies #[trigger] s[k + (-1)] == t[k] by {}
        lemma_digits_at_moved(t, s, date, -1, 4);
        assert forall|k: int| date + 5 <= k < date + 7 implies #[trigger] s[k + (-1)] == t[k] by {}
        lemma_digits_at_moved(t, s, date + 5, -1, 2);
        assert forall|k: int| date + 8 <= k < date + 10 implies #[trigger] s[k + (-1)] == t[k] by {}
        lemma_digits_at_moved(t, s, date + 8, -1, 2);
        assert(header_shape_at(s, i, 0, a, b, c));
    }
}

/// Outside the prefix letter the literal text of a header is exact: every
/// header opens with `## [` and closes its version with `] - `.
pub proof fn lemma_header_literals_exact(s: Seq<char>, i: int)
    requires
        header_at(s, i),
    ensures
        s[i] == '#',
        s[i + 1] == '#',
        s[i + 2] == ' ',
        s[i + 3] == '[',
{
    let (p, a, b, c) = choose|p: int, a: int, b: int, c: int| header_shape_at(s, i, p, a, b, c);
    assert(header_shape_at(s, i, p, a, b, c));
}

} // verus!
