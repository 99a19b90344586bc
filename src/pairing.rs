//! Positional pairing of two line sequences, and the whole differencing
//! pipeline from lines to batches.

use vstd::prelude::*;
use itertools::EitherOrBoth;
use itertools::Itertools;
use crate::difference::{classify, classify_spec, Alignment, AlignmentView, DiffItem, ItemView};
use crate::batcher::{batch_items, batches, batches_view, emit, items_view, run_from, Batch, BatchView, Batcher};

verus! {

pub open spec fn lines_view(v: Seq<String>) -> Seq<Seq<char>> {
    v.map_values(|s: String| s@)
}

pub open spec fn alignments_view(v: Seq<Alignment>) -> Seq<AlignmentView> {
    v.map_values(|a: Alignment| a@)
}

pub open spec fn pair_count(left: Seq<Seq<char>>, right: Seq<Seq<char>>) -> int {
    if left.len() >= right.len() { left.len() as int } else { right.len() as int }
}

/// The pairing at zero-based offset `i`, for `i < pair_count(left, right)`.
pub open spec fn alignment_at(left: Seq<Seq<char>>, right: Seq<Seq<char>>, i: int) -> AlignmentView {
    if i < left.len() && i < right.len() {
        AlignmentView::Both(left[i], right[i])
    } else if i < left.len() {
        AlignmentView::LeftOnly(left[i])
    } else {
        AlignmentView::RightOnly(right[i])
    }
}

/// The positional pairing of two line sequences, running until both are
/// exhausted.
pub open spec fn pairing(left: Seq<Seq<char>>, right: Seq<Seq<char>>) -> Seq<AlignmentView> {
    Seq::new(pair_count(left, right) as nat, |i: int| alignment_at(left, right, i))
}

/// The event stream of the pairings `pairs`, the first of which is at
/// zero-based offset `offset`.
pub open spec fn events_of(pairs: Seq<AlignmentView>, offset: int) -> Seq<ItemView>
    decreases pairs.len(),
{
    if pairs.len() == 0 {
        Seq::empty()
    } else {
        let before = events_of(pairs.drop_last(), offset);
        match classify_spec(offset + pairs.len() - 1, pairs.last()) {
            Some(e) => before.push(e),
            None => before,
        }
    }
}

/// The event stream of two whole inputs.
pub open spec fn events(left: Seq<Seq<char>>, right: Seq<Seq<char>>) -> Seq<ItemView> {
    events_of(pairing(left, right), 0)
}

/// Every batch reported for two whole inputs.
pub open spec fn report(left: Seq<Seq<char>>, right: Seq<Seq<char>>) -> Seq<BatchView> {
    batches(events(left, right))
}

/// Relies on itertools::Itertools::zip_longest: it yields `Both` while both
/// inputs have a next line, then `Left` or `Right` for each remaining line of
/// the longer input, in order, and ends when both are exhausted.
#[verifier::external_body]
fn zip_lines(left: Vec<String>, right: Vec<String>) -> (r: Vec<Alignment>)
    ensures
        alignments_view(r@) == pairing(lines_view(left@), lines_view(right@)),
{
    let mut r = Vec::new();
    for e in left.into_iter().zip_longest(right) {
        r.push(match e {
            EitherOrBoth::Both(l, r) => Alignment::Both(l, r),
            EitherOrBoth::Left(l) => Alignment::LeftOnly(l),
            EitherOrBoth::Right(r) => Alignment::RightOnly(r),
        });
    }
    r
}

/// Classifies the pairings `pairs`, the first of which is at zero-based
/// offset `offset`, into the event stream.
pub fn collect_items(pairs: Vec<Alignment>, offset: usize) -> (r: Vec<DiffItem>)
    requires
        offset + pairs.len() < usize::MAX,
    ensures
        items_view(r@) == events_of(alignments_view(pairs@), offset as int),
{
    let ghost all = alignments_view(pairs@);
    let n = pairs.len();
    let mut out: Vec<DiffItem> = Vec::new();
    let mut i: usize = offset;
    for a in it: pairs.into_iter()
        invariant
            alignments_view(it.seq()) == all,
            all.len() == n,
            offset + n < usize::MAX,
            i == offset + it.index(),
            items_view(out@) == events_of(all.take(it.index() as int), offset as int),
    {
        let ghost k = it.index() as int;
        proof {
            assert(all.take(k + 1).drop_last() =~= all.take(k));
            assert(all.take(k + 1).last() == a@);
        }
        let ghost before = out@;
        match classify(i, a) {
            Some(e) => {
                out.push(e);
                assert(items_view(out@) =~= items_view(before).push(e@));
            },
            None => {},
        }
        i = i + 1;
    }
    proof {
        assert(all.take(all.len() as int) =~= all);
    }
    out
}

/// Compares two whole inputs and returns every batch of differences.
pub fn diff_lines(left: Vec<String>, right: Vec<String>) -> (r: Vec<Batch>)
    requires
        left.len() < usize::MAX,
        right.len() < usize::MAX,
    ensures
        batches_view(r@) == report(lines_view(left@), lines_view(right@)),
{
    let pairs = zip_lines(left, right);
    let items = collect_items(pairs, 0);
    batch_items(items)
}

/// The differencing pipeline fed with the two inputs a piece at a time.
///
/// Each call of `feed` takes the next lines of both inputs from one offset
/// on; a piece is shorter on one side only where that input has ended.
pub struct DiffStream {
    next: usize,
    batcher: Batcher,
}

impl DiffStream {
    /// The zero-based offset of the next pairing.
    pub closed spec fn offset(&self) -> int {
        self.next as int
    }

    pub closed spec fn open_view(&self) -> Option<BatchView> {
        self.batcher.open_view()
    }

    pub fn new() -> (r: Self)
        ensures
            r.offset() == 0,
            r.open_view() == None::<BatchView>,
    {
        DiffStream { next: 0, batcher: Batcher::new() }
    }

    /// Pairs and classifies the next lines of both inputs and batches the
    /// events; returns the batches that they close.
    pub fn feed(&mut self, left: Vec<String>, right: Vec<String>) -> (r: Vec<Batch>)
        requires
            old(self).offset() + left.len() < usize::MAX,
            old(self).offset() + right.len() < usize::MAX,
        ensures
            final(self).offset() == old(self).offset() + pair_count(lines_view(left@), lines_view(right@)),
            (batches_view(r@), final(self).open_view()) == run_from(
                old(self).open_view(),
                events_of(pairing(lines_view(left@), lines_view(right@)), old(self).offset()),
            ),
    {
        let pairs = zip_lines(left, right);
        let n = pairs.len();
        let items = collect_items(pairs, self.next);
        self.next = self.next + n;
        self.batcher.push_all(items)
    }

    /// Ends both inputs; returns the batch that was still open, if any.
    pub fn finish(self) -> (r: Vec<Batch>)
        ensures
            batches_view(r@) == emit(Seq::empty(), self.open_view()),
    {
        let mut out: Vec<Batch> = Vec::new();
        match self.batcher.finish() {
            Some(b) => {
                out.push(b);
                assert(batches_view(out@) =~= seq![b@]);
            },
            None => {},
        }
        out
    }
}

} // verus!
