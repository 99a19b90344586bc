//! Grouping of the event stream into batches of consecutive differences.
//!
//! The batcher holds one open batch. A difference whose line directly follows
//! the open batch's last line joins it while the batch is under the cap;
//! any other difference closes the open batch and opens a new one; a
//! heartbeat closes the open batch. Closing at a heartbeat bounds how long a
//! batch waits for its next line, at the price of splitting a run that a
//! heartbeat falls inside.

use vstd::prelude::*;
use crate::difference::{DiffItem, Difference, DifferenceView, ItemView, MAX_BATCH_SIZE};

verus! {

/// The mathematical value of a `Batch`.
pub struct BatchView {
    pub start: int,
    pub diffs: Seq<DifferenceView>,
}

/// A run of differences at consecutive lines, starting at line `start`.
pub struct Batch {
    pub start: usize,
    pub diffs: Vec<Difference>,
}

pub open spec fn diffs_view(v: Seq<Difference>) -> Seq<DifferenceView> {
    v.map_values(|d: Difference| d@)
}

impl View for Batch {
    type V = BatchView;

    open spec fn view(&self) -> BatchView {
        BatchView { start: self.start as int, diffs: diffs_view(self.diffs@) }
    }
}

pub open spec fn batch_opt_view(o: Option<Batch>) -> Option<BatchView> {
    match o {
        Some(b) => Some(b@),
        None => None,
    }
}

pub open spec fn batches_view(v: Seq<Batch>) -> Seq<BatchView> {
    v.map_values(|b: Batch| b@)
}

pub open spec fn items_view(v: Seq<DiffItem>) -> Seq<ItemView> {
    v.map_values(|i: DiffItem| i@)
}

/// The batch that a single difference opens.
pub open spec fn opened(d: DifferenceView) -> BatchView {
    BatchView { start: d.line, diffs: seq![d] }
}

/// Whether `d` joins the open batch `b`: `b` is under the cap and `d` is on
/// the line after `b`'s last one.
pub open spec fn extends(b: BatchView, d: DifferenceView) -> bool {
    &&& 0 < b.diffs.len() < MAX_BATCH_SIZE
    &&& d.line == b.diffs.last().line + 1
}

/// One event read by the batcher: from the open batch before it, the open
/// batch after it and the batch that it closes, if any.
pub open spec fn step(open: Option<BatchView>, item: ItemView) -> (Option<BatchView>, Option<BatchView>) {
    match item {
        ItemView::Heartbeat => (None, open),
        ItemView::Difference(d) => match open {
            None => (Some(opened(d)), None),
            Some(b) => if extends(b, d) {
                (Some(BatchView { start: b.start, diffs: b.diffs.push(d) }), None)
            } else {
                (Some(opened(d)), Some(b))
            },
        },
    }
}

pub open spec fn emit(done: Seq<BatchView>, b: Option<BatchView>) -> Seq<BatchView> {
    match b {
        Some(b) => done.push(b),
        None => done,
    }
}

/// The batches closed while reading `items` with `open` as the open batch
/// at the start, and the batch left open at the end.
pub open spec fn run_from(open: Option<BatchView>, items: Seq<ItemView>) -> (Seq<BatchView>, Option<BatchView>)
    decreases items.len(),
{
    if items.len() == 0 {
        (Seq::empty(), open)
    } else {
        let (done, cur) = run_from(open, items.drop_last());
        let (next, closed) = step(cur, items.last());
        (emit(done, closed), next)
    }
}

/// Every batch of the event stream `items`, in order.
pub open spec fn batches(items: Seq<ItemView>) -> Seq<BatchView> {
    emit(run_from(None, items).0, run_from(None, items).1)
}

/// The streaming batcher: its only state is the open batch.
pub struct Batcher {
    open: Option<Batch>,
}

impl Batcher {
    pub closed spec fn open_view(&self) -> Option<BatchView> {
        batch_opt_view(self.open)
    }

    pub fn new() -> (r: Self)
        ensures
            r.open_view() == None::<BatchView>,
    {
        Batcher { open: None }
    }

    fn starting(d: Difference) -> (r: Batch)
        ensures
            r@ == opened(d@),
    {
        let start = d.line;
        let mut diffs: Vec<Difference> = Vec::new();
        diffs.push(d);
        let r = Batch { start, diffs };
        assert(r@.diffs =~= seq![d@]);
        r
    }

    /// Reads one event; returns the batch that it closes, if any.
    pub fn push(&mut self, item: DiffItem) -> (r: Option<Batch>)
        ensures
            (final(self).open_view(), batch_opt_view(r)) == step(old(self).open_view(), item@),
    {
        let cur = self.open.take();
        match item {
            DiffItem::NoDifference => cur,
            DiffItem::Difference(d) => match cur {
                None => {
                    self.open = Some(Self::starting(d));
                    None
                },
                Some(b) => {
                    let n = b.diffs.len();
                    if 0 < n && n < MAX_BATCH_SIZE && d.line > 0 && d.line - 1 == b.diffs[n - 1].line {
                        let mut b = b;
                        let ghost before = b@;
                        let ghost dv = d@;
                        b.diffs.push(d);
                        assert(b@.diffs =~= before.diffs.push(dv));
                        self.open = Some(b);
                        None
                    } else {
                        self.open = Some(Self::starting(d));
                        Some(b)
                    }
                },
            },
        }
    }

    /// Reads the events `items` in order; returns the batches that they close.
    pub fn push_all(&mut self, items: Vec<DiffItem>) -> (r: Vec<Batch>)
        ensures
            (batches_view(r@), final(self).open_view()) == run_from(old(self).open_view(), items_view(items@)),
    {
        let ghost all = items_view(items@);
        let ghost start = self.open_view();
        let mut out: Vec<Batch> = Vec::new();
        for item in it: items.into_iter()
            invariant
                items_view(it.seq()) == all,
                (batches_view(out@), self.open_view()) == run_from(start, all.take(it.index() as int)),
        {
            let ghost k = it.index() as int;
            proof {
                assert(all.take(k + 1).drop_last() =~= all.take(k));
            }
            let closed = self.push(item);
            emit_into(&mut out, closed);
        }
        proof {
            assert(all.take(all.len() as int) =~= all);
        }
        out
    }

    /// Ends the stream; returns the batch that was still open, if any.
    pub fn finish(self) -> (r: Option<Batch>)
        ensures
            batch_opt_view(r) == self.open_view(),
    {
        self.open
    }
}

fn emit_into(out: &mut Vec<Batch>, b: Option<Batch>)
    ensures
        batches_view(final(out)@) == emit(batches_view(old(out)@), batch_opt_view(b)),
{
    match b {
        Some(b) => {
            let ghost before = out@;
            out.push(b);
            assert(batches_view(out@) =~= batches_view(before).push(b@));
        },
        None => {},
    }
}

/// Groups a whole event stream into batches.
pub fn batch_items(items: Vec<DiffItem>) -> (r: Vec<Batch>)
    ensures
        batches_view(r@) == batches(items_view(items@)),
{
    let mut batcher = Batcher::new();
    let mut out = batcher.push_all(items);
    let last = batcher.finish();
    emit_into(&mut out, last);
    out
}

} // verus!
