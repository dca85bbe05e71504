//! A single line of text, addressed by grapheme-cluster index.
use vstd::prelude::*;
use vstd::string::*;
use vstd::utf8::encode_utf8;

use crate::graphemes::{
    clamp, deleted, displayed, grapheme_clusters, grapheme_count, graphemes_of, head, inserted,
    rendered, segmented, tail,
};

verus! {

broadcast use vstd::seq_lib::group_seq_properties;

/// One line of text together with the cached number of its grapheme clusters.
#[derive(Debug)]
pub struct Row {
    string: String,
    len: usize,
}

impl View for Row {
    type V = Seq<char>;

    /// The characters of the line.
    closed spec fn view(&self) -> Seq<char> {
        self.string@
    }
}

/// The text of clusters `[from, to)` of `gs`, joined.
fn join_range(gs: &Vec<String>, from: usize, to: usize) -> (r: String)
    requires
        from <= to <= gs@.len(),
    ensures
        r@ == gs@.map_values(|g: String| g@).subrange(from as int, to as int).flatten(),
{
    let ghost views = gs@.map_values(|g: String| g@);
    let mut r = String::new();
    let mut i: usize = from;
    while i < to
        invariant
            from <= i <= to <= gs@.len(),
            views == gs@.map_values(|g: String| g@),
            r@ == views.subrange(from as int, i as int).flatten(),
        decreases to - i,
    {
        proof {
            assert(views.subrange(from as int, i + 1) =~= views.subrange(from as int, i as int).push(
                gs@[i as int]@,
            ));
            views.subrange(from as int, i as int).lemma_flatten_push(gs@[i as int]@);
        }
        r.append(gs[i].as_str());
        i = i + 1;
    }
    r
}

/// Relies on `String::push`: appends one character to the text.
#[verifier::external_body]
fn push_char(s: &mut String, c: char)
    ensures
        final(s)@ == old(s)@.push(c),
{
    s.push(c);
}

/// Whether `g` is exactly one tab character.
fn is_tab(g: &String) -> (r: bool)
    ensures
        r == (g@ == seq!['\t']),
{
    let s = g.as_str();
    if s.unicode_len() == 1 {
        let c = s.get_char(0);
        assert(c == '\t' ==> g@ =~= seq!['\t']);
        c == '\t'
    } else {
        false
    }
}

impl Row {
    /// The cached count matches the text, and the text is covered by its clusters.
    pub closed spec fn wf(&self) -> bool {
        &&& self.len == grapheme_count(self.string@)
        &&& segmented(self.string@)
    }

    /// Recounts the clusters of the text.
    fn update_len(&mut self)
        ensures
            final(self).wf(),
            final(self)@ == old(self)@,
    {
        let gs = grapheme_clusters(self.string.as_str());
        self.len = gs.len();
    }

    /// A row holding `text`.
    pub fn from(text: &str) -> (r: Row)
        ensures
            r.wf(),
            r@ == text@,
    {
        let mut row = Row { string: String::from_str(text), len: 0 };
        row.update_len();
        row
    }

    /// The displayed text of clusters `[start, end)`: `end` is clamped to the
    /// cluster count, `start` to the clamped `end`, and each tab is shown as a
    /// single space.
    pub fn render(&self, start: usize, end: usize) -> (r: String)
        requires
            self.wf(),
        ensures
            r@ == rendered(self@, start as int, end as int),
    {
        let end = if end < self.len {
            end
        } else {
            self.len
        };
        let start = if start < end {
            start
        } else {
            end
        };
        let gs = grapheme_clusters(self.string.as_str());
        let ghost shown = gs@.map_values(|g: String| displayed(g@));
        let mut result = String::new();
        let mut i: usize = start;
        while i < end
            invariant
                start <= i <= end <= gs@.len(),
                shown == gs@.map_values(|g: String| displayed(g@)),
                result@ == shown.subrange(start as int, i as int).flatten(),
            decreases end - i,
        {
            proof {
                assert(shown.subrange(start as int, i + 1) =~= shown.subrange(
                    start as int,
                    i as int,
                ).push(displayed(gs@[i as int]@)));
                shown.subrange(start as int, i as int).lemma_flatten_push(displayed(gs@[i as int]@));
            }
            if is_tab(&gs[i]) {
                push_char(&mut result, ' ');
            } else {
                result.append(gs[i].as_str());
            }
            i = i + 1;
        }
        proof {
            assert(graphemes_of(self@).subrange(start as int, end as int).map_values(
                |g: Seq<char>| displayed(g),
            ) =~= shown.subrange(start as int, end as int));
        }
        result
    }

    /// Puts `c` before cluster `at`, or at the end when `at` is past the last
    /// cluster; the count is then taken again.
    pub fn insert(&mut self, at: usize, c: char)
        requires
            old(self).wf(),
        ensures
            final(self).wf(),
            final(self)@ == inserted(old(self)@, at as int, c),
            at >= grapheme_count(old(self)@) ==> final(self)@ == old(self)@.push(c),
    {
        let ghost s = self@;
        if at >= self.len {
            proof {
                let gs = graphemes_of(s);
                assert(gs.take(clamp(s, at as int)) =~= gs);
                assert(gs.skip(clamp(s, at as int)) =~= Seq::<Seq<char>>::empty());
            }
            push_char(&mut self.string, c);
        } else {
            let gs = grapheme_clusters(self.string.as_str());
            let mut result = join_range(&gs, 0, at);
            push_char(&mut result, c);
            let rest = join_range(&gs, at, gs.len());
            result.append(rest.as_str());
            proof {
                let views = gs@.map_values(|g: String| g@);
                assert(views.subrange(0, at as int) =~= graphemes_of(s).take(at as int));
                assert(views.subrange(at as int, views.len() as int) =~= graphemes_of(s).skip(
                    at as int,
                ));
            }
            self.string = result;
        }
        self.update_len();
    }

    /// Removes cluster `at`; does nothing when there is no such cluster.
    pub fn delete(&mut self, at: usize)
        requires
            old(self).wf(),
        ensures
            final(self).wf(),
            final(self)@ == deleted(old(self)@, at as int),
    {
        let ghost s = self@;
        if at >= self.len {
            return;
        }
        let gs = grapheme_clusters(self.string.as_str());
        let mut result = join_range(&gs, 0, at);
        let rest = join_range(&gs, at + 1, gs.len());
        result.append(rest.as_str());
        proof {
            let views = gs@.map_values(|g: String| g@);
            assert(views.subrange(0, at as int) =~= graphemes_of(s).take(at as int));
            assert(views.subrange(at + 1, views.len() as int) =~= graphemes_of(s).skip(at + 1));
        }
        self.string = result;
        self.update_len();
    }

    /// Keeps the first `at` clusters and returns a row of the rest (all of the
    /// text stays when `at` is past the end).
    pub fn split(&mut self, at: usize) -> (r: Row)
        requires
            old(self).wf(),
        ensures
            final(self).wf(),
            r.wf(),
            final(self)@ == head(old(self)@, at as int),
            r@ == tail(old(self)@, at as int),
            final(self)@ + r@ == old(self)@,
    {
        let ghost s = self@;
        let gs = grapheme_clusters(self.string.as_str());
        let cut = if at < gs.len() {
            at
        } else {
            gs.len()
        };
        let result = join_range(&gs, 0, cut);
        let remainder = join_range(&gs, cut, gs.len());
        proof {
            let views = gs@.map_values(|g: String| g@);
            assert(views.subrange(0, cut as int) =~= graphemes_of(s).take(cut as int));
            assert(views.subrange(cut as int, views.len() as int) =~= graphemes_of(s).skip(
                cut as int,
            ));
        }
        proof {
            lemma_split_append_round_trip(*self, at as int);
        }
        self.string = result;
        self.update_len();
        Row::from(remainder.as_str())
    }

    /// Puts the text of `row` after this row's text.
    pub fn append(&mut self, row: Row)
        requires
            old(self).wf(),
        ensures
            final(self).wf(),
            final(self)@ == old(self)@ + row@,
    {
        self.string.append(row.string.as_str());
        self.update_len();
    }

    /// The stored text as UTF-8 bytes.
    pub fn as_bytes(&self) -> (r: &[u8])
        ensures
            r@ == encode_utf8(self@),
    {
        self.string.as_str().as_bytes()
    }

    /// Number of grapheme clusters in the row.
    pub fn len(&self) -> (r: usize)
        requires
            self.wf(),
        ensures
            r == grapheme_count(self@),
            (r == 0) == (self@.len() == 0),
    {
        proof {
            lemma_empty_iff_no_clusters(self@);
        }
        self.len
    }

    /// Whether the row holds no cluster.
    pub fn is_empty(&self) -> (r: bool)
        requires
            self.wf(),
        ensures
            r == (grapheme_count(self@) == 0),
            r == (self@.len() == 0),
    {
        proof {
            lemma_empty_iff_no_clusters(self@);
        }
        self.len == 0
    }
}

impl From<&str> for Row {
    /// A row holding `text`; the same as the inherent `Row::from`.
    fn from(text: &str) -> Row {
        Row::from(text)
    }
}

impl vstd::std_specs::convert::FromSpecImpl<&str> for Row {
    open spec fn obeys_from_spec() -> bool {
        false
    }

    open spec fn from_spec(text: &str) -> Row {
        arbitrary()
    }
}

impl Default for Row {
    /// An empty row.
    fn default() -> (r: Row)
        ensures
            r.wf(),
            r@ == Seq::<char>::empty(),
    {
        proof {
            reveal_strlit("");
        }
        Row::from("")
    }
}

/// A text covered by non-empty clusters is empty exactly when it has no cluster.
pub proof fn lemma_empty_iff_no_clusters(s: Seq<char>)
    requires
        segmented(s),
    ensures
        (grapheme_count(s) == 0) == (s.len() == 0),
{
    let g = graphemes_of(s);
    if g.len() > 0 {
        assert(g.flatten() == g[0] + g.drop_first().flatten());
        assert(g[0].len() > 0);
    }
}

/// A well-formed row's text is covered exactly by its non-empty clusters.
pub proof fn lemma_wf_segmented(row: Row)
    requires
        row.wf(),
    ensures
        segmented(row@),
{
}

/// Inserting a character that forms a cluster of its own, while the clusters
/// around it stay as they were, adds exactly one cluster; the row then
/// displays as before with that character shown at position `at`.
pub proof fn lemma_insert_adds_one_cluster(row: Row, at: int, c: char)
    requires
        row.wf(),
        0 <= at <= grapheme_count(row@),
        graphemes_of(inserted(row@, at, c)) == graphemes_of(row@).take(at).push(seq![c])
            + graphemes_of(row@).skip(at),
    ensures
        grapheme_count(inserted(row@, at, c)) == grapheme_count(row@) + 1,
        rendered(inserted(row@, at, c), 0, grapheme_count(row@) + 1 as int) == rendered(row@, 0, at)
            + displayed(seq![c]) + rendered(row@, at, grapheme_count(row@) as int),
{
    let g = graphemes_of(row@);
    let n = g.len() as int;
    let t = inserted(row@, at, c);
    let d = |x: Seq<char>| displayed(x);
    let front = g.take(at).map_values(d);
    let back = g.skip(at).map_values(d);
    assert(graphemes_of(t).subrange(0, n + 1).map_values(d) =~= front.push(displayed(seq![c]))
        + back);
    vstd::seq_lib::lemma_flatten_concat(front.push(displayed(seq![c])), back);
    front.lemma_flatten_push(displayed(seq![c]));
    assert(g.subrange(0, at).map_values(d) =~= front);
    assert(g.subrange(at, n).map_values(d) =~= back);
}

/// Deleting cluster `at` removes exactly that cluster's text; where the
/// clusters around it stay as they were, the count goes down by one. Past the
/// last cluster the row is left unchanged.
pub proof fn lemma_delete_removes_one_cluster(row: Row, at: int)
    requires
        row.wf(),
        0 <= at,
    ensures
        at < grapheme_count(row@) ==> deleted(row@, at) == graphemes_of(row@).remove(at).flatten(),
        at < grapheme_count(row@) && graphemes_of(deleted(row@, at)) == graphemes_of(row@).remove(
            at,
        ) ==> grapheme_count(deleted(row@, at)) == grapheme_count(row@) - 1,
        at >= grapheme_count(row@) ==> deleted(row@, at) == row@,
{
    let g = graphemes_of(row@);
    if at < g.len() {
        assert(g.remove(at) =~= g.take(at) + g.skip(at + 1));
        vstd::seq_lib::lemma_flatten_concat(g.take(at), g.skip(at + 1));
    }
}

/// Splitting a row at any position and appending the returned row back gives
/// the original text, and so the original cluster count.
pub proof fn lemma_split_append_round_trip(row: Row, at: int)
    requires
        row.wf(),
        0 <= at,
    ensures
        head(row@, at) + tail(row@, at) == row@,
        grapheme_count(head(row@, at) + tail(row@, at)) == grapheme_count(row@),
{
    let g = graphemes_of(row@);
    let k = clamp(row@, at);
    assert(g.take(k) + g.skip(k) =~= g);
    vstd::seq_lib::lemma_flatten_concat(g.take(k), g.skip(k));
}

/// Where the kept and the returned text of a split segment into the original's
/// clusters before and after the split position, their counts add up to the
/// original count.
pub proof fn lemma_split_counts_add_up(row: Row, at: int)
    requires
        row.wf(),
        0 <= at,
        graphemes_of(head(row@, at)) == graphemes_of(row@).take(clamp(row@, at)),
        graphemes_of(tail(row@, at)) == graphemes_of(row@).skip(clamp(row@, at)),
    ensures
        grapheme_count(head(row@, at)) + grapheme_count(tail(row@, at)) == grapheme_count(row@),
{
}

/// Inserting a character that forms a cluster of its own, while the clusters
/// around it stay as they were, and then deleting at the same position gives
/// back the original text.
pub proof fn lemma_insert_then_delete(row: Row, at: int, c: char)
    requires
        row.wf(),
        0 <= at <= grapheme_count(row@),
        graphemes_of(inserted(row@, at, c)) == graphemes_of(row@).take(at).push(seq![c])
            + graphemes_of(row@).skip(at),
    ensures
        deleted(inserted(row@, at, c), at) == row@,
{
    let g = graphemes_of(row@);
    let t = inserted(row@, at, c);
    let h = graphemes_of(t);
    assert(h.take(at) =~= g.take(at));
    assert(h.skip(at + 1) =~= g.skip(at));
    assert(g.take(at) + g.skip(at) =~= g);
    vstd::seq_lib::lemma_flatten_concat(g.take(at), g.skip(at));
}

} // verus!
