//! The entry extractor.
//!
//! A changelog entry is the text from one version header up to the next
//! header, or up to the end of the document when no later header exists.
//! The most recent entry is the one whose header is found first in a
//! left-to-right scan, per the convention that changelogs list entries
//! newest first; no ordering of version numbers or dates is assumed.

use vstd::prelude::*;
use vstd::string::StrSliceExecFns;
use vstd::string::StringExecFns;

use crate::header::header_at;
use crate::header::header_match_at;

verus! {

/// The offset of the first header at or after `i`, scanning left to
/// right; `None` when no header occurs there or later.
pub open spec fn first_header_from(s: Seq<char>, i: int) -> Option<int>
    decreases s.len() - i
        when 0 <= i <= s.len()
{
    if i >= s.len() {
        None
    } else if header_at(s, i) {
        Some(i)
    } else {
        first_header_from(s, i + 1)
    }
}

/// The most recent changelog entry of `s`: the text from the first header
/// up to the second header (exclusive), or up to the end of the document
/// when the first header is the only one.  `None` when no header occurs
/// anywhere in `s`.
pub open spec fn spec_latest_entry(s: Seq<char>) -> Option<Seq<char>> {
    match first_header_from(s, 0) {
        None => None,
        Some(start) => match first_header_from(s, start + 1) {
            Some(next) => Some(s.subrange(start, next)),
            None => Some(s.subrange(start, s.len() as int)),
        },
    }
}

/// Where the scan finds a header, the found offset lies in range, a
/// header begins there, and none begins earlier in the scanned range.
pub proof fn lemma_first_header_from_some(s: Seq<char>, i: int, k: int)
    requires
        0 <= i <= s.len(),
        first_header_from(s, i) == Some(k),
    ensures
        i <= k < s.len(),
        header_at(s, k),
        forall|j: int| i <= j < k ==> !header_at(s, j),
    decreases s.len() - i,
{
    if i < s.len() && !header_at(s, i) {
        lemma_first_header_from_some(s, i + 1, k);
    }
}

/// Where the scan finds nothing, no header begins anywhere in the
/// scanned range.
pub proof fn lemma_first_header_from_none(s: Seq<char>, i: int)
    requires
        0 <= i <= s.len(),
        first_header_from(s, i) is None,
    ensures
        forall|j: int| i <= j < s.len() ==> !header_at(s, j),
    decreases s.len() - i,
{
    if i < s.len() {
        lemma_first_header_from_none(s, i + 1);
    }
}

/// The scan finds the earliest header of the scanned range.
pub proof fn lemma_first_header_from_found(s: Seq<char>, i: int, k: int)
    requires
        0 <= i <= k < s.len(),
        header_at(s, k),
        forall|j: int| i <= j < k ==> !header_at(s, j),
    ensures
        first_header_from(s, i) == Some(k),
    decreases k - i,
{
    if i < k {
        assert(!header_at(s, i));
        lemma_first_header_from_found(s, i + 1, k);
    }
}

/// A range without a header makes the scan come up empty.
pub proof fn lemma_first_header_from_absent(s: Seq<char>, i: int)
    requires
        0 <= i <= s.len(),
        forall|j: int| i <= j < s.len() ==> !header_at(s, j),
    ensures
        first_header_from(s, i) is None,
    decreases s.len() - i,
{
    if i < s.len() {
        assert(!header_at(s, i));
        lemma_first_header_from_absent(s, i + 1);
    }
}

/// Finds the offset of the first header at or after `from`.
fn find_header_from(s: &str, from: usize, len: usize) -> (r: Option<usize>)
    requires
        len == s@.len(),
        from <= len,
    ensures
        match r {
            Some(k) => first_header_from(s@, from as int) == Some(k as int),
            None => first_header_from(s@, from as int) is None,
        },
{
    let mut j: usize = from;
    while j < len
        invariant
            len == s@.len(),
            from <= j <= len,
            first_header_from(s@, from as int) == first_header_from(s@, j as int),
        decreases len - j,
    {
        if header_match_at(s, j, len) {
            return Some(j);
        }
        proof {
            assert(first_header_from(s@, j as int) == first_header_from(s@, j + 1));
        }
        j = j + 1;
    }
    None
}

/// The failure of extraction: the document holds no recognizable version
/// header anywhere.
#[derive(Clone, Copy, Debug, PartialEq, Eq, Structural)]
pub struct NoHeaderFound;

impl NoHeaderFound {
    /// What this failure tells the user: no header was recognized, so the
    /// changelog format may be unsupported.
    pub fn message(&self) -> (m: String)
        ensures
            m@ == "No valid changelog headers found. Is the changelog in a supported format?"@,
    {
        String::from_str("No valid changelog headers found. Is the changelog in a supported format?")
    }
}

/// Extracts the most recent entry of a changelog document: the text from
/// the first header occurrence up to the second one, or up to the end of
/// the document when the first header is the only one.  Fails with
/// `NoHeaderFound` exactly when no header occurs in the document.
pub fn get_latest_changelog_entry<'a>(changelog_content: &'a str) -> (r: Result<
    &'a str,
    NoHeaderFound,
>)
    ensures
        match r {
            Ok(entry) => spec_latest_entry(changelog_content@) == Some(entry@),
            Err(_) => spec_latest_entry(changelog_content@) is None,
        },
{
    let len = changelog_content.unicode_len();
    match find_header_from(changelog_content, 0, len) {
        None => Err(NoHeaderFound),
        Some(start) => {
            proof {
                lemma_first_header_from_some(changelog_content@, 0, start as int);
            }
            let end: usize = match find_header_from(changelog_content, start + 1, len) {
                Some(next) => next,
                None => len,
            };
            proof {
                if first_header_from(changelog_content@, start + 1) is Some {
                    lemma_first_header_from_some(changelog_content@, start + 1, end as int);
                }
            }
            Ok(changelog_content.substring_char(start, end))
        },
    }
}

/// Extraction is a pure function of the text: a given document admits
/// only one entry, so extracting twice from the same text yields the
/// same result.
pub proof fn lemma_extraction_deterministic(s: Seq<char>, e1: Seq<char>, e2: Seq<char>)
    requires
        spec_latest_entry(s) == Some(e1),
        spec_latest_entry(s) == Some(e2),
    ensures
        e1 == e2,
{
}

/// Extraction fails exactly on the texts without a single header-pattern
/// match: a text with no match yields no entry, and a text with a match
/// always yields one.
pub proof fn lemma_no_entry_iff_no_header(s: Seq<char>)
    ensures
        (spec_latest_entry(s) is None) <==> (forall|j: int| 0 <= j < s.len() ==> !header_at(
            s,
            j,
        )),
{
    if spec_latest_entry(s) is None {
        lemma_first_header_from_none(s, 0);
    }
    if forall|j: int| 0 <= j < s.len() ==> !header_at(s, j) {
        lemma_first_header_from_absent(s, 0);
    }
}

/// A text with exactly one header-pattern match, at offset `k`, yields
/// the text from `k` to the end of the document.
pub proof fn lemma_single_header_entry(s: Seq<char>, k: int)
    requires
        0 <= k < s.len(),
        header_at(s, k),
        forall|j: int| 0 <= j < s.len() && j != k ==> !header_at(s, j),
    ensures
        spec_latest_entry(s) == Some(s.subrange(k, s.len() as int)),
{
    lemma_first_header_from_found(s, 0, k);
    lemma_first_header_from_absent(s, k + 1);
}

/// A text whose first two header-pattern matches are at offsets
/// `k0 < k1` yields exactly the text of `[k0, k1)`; matches beyond the
/// second are irrelevant.
pub proof fn lemma_multi_header_entry(s: Seq<char>, k0: int, k1: int)
    requires
        0 <= k0 < k1 < s.len(),
        header_at(s, k0),
        header_at(s, k1),
        forall|j: int| 0 <= j < k0 ==> !header_at(s, j),
        forall|j: int| k0 < j < k1 ==> !header_at(s, j),
    ensures
        spec_latest_entry(s) == Some(s.subrange(k0, k1)),
{
    lemma_first_header_from_found(s, 0, k0);
    lemma_first_header_from_found(s, k0 + 1, k1);
}

} // verus!
