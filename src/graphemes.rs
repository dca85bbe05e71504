//! The segmentation of text into extended grapheme clusters, and the views of
//! a line that the editing operations are stated over.
use unicode_segmentation::UnicodeSegmentation;
use vstd::prelude::*;

verus! {

/// The extended grapheme clusters of a text, in order.
pub uninterp spec fn graphemes_of(s: Seq<char>) -> Seq<Seq<char>>;

/// Relies on `UnicodeSegmentation::graphemes` with extended clusters: it
/// yields consecutive, non-empty slices of `s` that together cover `s`, and
/// what it yields depends on the text alone.
#[verifier::external_body]
pub(crate) fn grapheme_clusters(s: &str) -> (r: Vec<String>)
    ensures
        r@.map_values(|g: String| g@) == graphemes_of(s@),
        r@.map_values(|g: String| g@).flatten() == s@,
        forall|i: int| 0 <= i < r@.len() ==> (#[trigger] r@[i])@.len() > 0,
{
    s.graphemes(true).map(String::from).collect()
}

/// The clusters of `s` cover it exactly, and none of them is empty.
pub open spec fn segmented(s: Seq<char>) -> bool {
    &&& graphemes_of(s).flatten() == s
    &&& forall|i: int| 0 <= i < graphemes_of(s).len() ==> (#[trigger] graphemes_of(s)[i]).len() > 0
}

/// Number of grapheme clusters in `s`.
pub open spec fn grapheme_count(s: Seq<char>) -> nat {
    graphemes_of(s).len()
}

/// A position clamped to the number of clusters in `s`.
pub open spec fn clamp(s: Seq<char>, at: int) -> int {
    if at < grapheme_count(s) {
        at
    } else {
        grapheme_count(s) as int
    }
}

/// The text of the first `at` clusters of `s` (all of them when `at` is past the end).
pub open spec fn head(s: Seq<char>, at: int) -> Seq<char> {
    graphemes_of(s).take(clamp(s, at)).flatten()
}

/// The text of the clusters of `s` from index `at` on (none when `at` is past the end).
pub open spec fn tail(s: Seq<char>, at: int) -> Seq<char> {
    graphemes_of(s).skip(clamp(s, at)).flatten()
}

/// `s` with `c` placed before cluster `at`, or at the end when `at` is past it.
pub open spec fn inserted(s: Seq<char>, at: int, c: char) -> Seq<char> {
    head(s, at) + seq![c] + tail(s, at)
}

/// `s` without its cluster `at`; `s` itself when there is no such cluster.
pub open spec fn deleted(s: Seq<char>, at: int) -> Seq<char> {
    if at < grapheme_count(s) {
        head(s, at) + tail(s, at + 1)
    } else {
        s
    }
}

/// How one cluster is shown: a tab as a single space, anything else as it is.
pub open spec fn displayed(g: Seq<char>) -> Seq<char> {
    if g == seq!['\t'] {
        seq![' ']
    } else {
        g
    }
}

/// The displayed text of clusters `[start, end)` of `s`, where `end` is
/// clamped to the cluster count and `start` to the clamped `end`.
pub open spec fn rendered(s: Seq<char>, start: int, end: int) -> Seq<char> {
    let e = clamp(s, end);
    let b = if start < e {
        start
    } else {
        e
    };
    graphemes_of(s).subrange(b, e).map_values(|g: Seq<char>| displayed(g)).flatten()
}

} // verus!
