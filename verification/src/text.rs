//! Comparisons of text that the vault needs: equality, the order in which
//! site names are listed, and the search for a fragment.

use vstd::prelude::*;

verus! {

/// The order of two texts: character by character, each by its code point; a
/// text comes before every longer text that it begins.
pub open spec fn text_before(a: Seq<char>, b: Seq<char>) -> bool
    decreases a.len(),
{
    if b.len() == 0 {
        false
    } else if a.len() == 0 {
        true
    } else if a[0] != b[0] {
        (a[0] as int) < (b[0] as int)
    } else {
        text_before(a.drop_first(), b.drop_first())
    }
}

/// Whether `needle` occurs in `hay` as a run of neighbouring characters.
pub open spec fn text_contains(hay: Seq<char>, needle: Seq<char>) -> bool {
    exists|from: int|
        0 <= from && from + needle.len() <= hay.len() && #[trigger] hay.subrange(
            from,
            from + needle.len(),
        ) == needle
}

/// `str`'s `==`: true where the two hold the same characters.
#[verifier::external_body]
pub(crate) fn same_text(a: &str, b: &str) -> (same: bool)
    ensures
        same == (a@ == b@),
{
    a == b
}

/// `str`'s `<`, which std documents as the lexicographic order of the bytes,
/// and so of the code points.
#[verifier::external_body]
pub(crate) fn comes_before(a: &str, b: &str) -> (before: bool)
    ensures
        before == text_before(a@, b@),
{
    a < b
}

/// `str::contains` with a `&str` pattern: true where the pattern is a
/// substring.
#[verifier::external_body]
pub(crate) fn has_fragment(hay: &str, needle: &str) -> (found: bool)
    ensures
        found == text_contains(hay@, needle@),
{
    hay.contains(needle)
}

/// No text comes before itself.
pub proof fn lemma_text_before_irreflexive(a: Seq<char>)
    ensures
        !text_before(a, a),
    decreases a.len(),
{
    if a.len() > 0 {
        lemma_text_before_irreflexive(a.drop_first());
    }
}

/// The order is transitive.
pub proof fn lemma_text_before_transitive(a: Seq<char>, b: Seq<char>, c: Seq<char>)
    requires
        text_before(a, b),
        text_before(b, c),
    ensures
        text_before(a, c),
    decreases a.len(),
{
    if a.len() > 0 && a[0] == b[0] && b[0] == c[0] {
        lemma_text_before_transitive(a.drop_first(), b.drop_first(), c.drop_first());
    }
}

} // verus!
