//! Difference events and the per-position classifier.

use vstd::prelude::*;

verus! {

/// The largest number of differences that one batch holds.
pub const MAX_BATCH_SIZE: usize = 100;

/// Every position whose zero-based offset is a multiple of this, and whose
/// two lines match, produces a heartbeat.
pub const HEARTBEAT_INTERVAL: usize = 10000;

/// Every position whose zero-based offset is a multiple of this is reported
/// as progress on the side channel.
pub const PROGRESS_INTERVAL: usize = 100000;

/// The mathematical value of a `Difference`.
pub struct DifferenceView {
    pub line: int,
    pub lhs: Option<Seq<char>>,
    pub rhs: Option<Seq<char>>,
}

/// A position at which the two inputs differ; `line` is one-based.
pub struct Difference {
    pub line: usize,
    pub lhs: Option<String>,
    pub rhs: Option<String>,
}

pub open spec fn text_view(o: Option<String>) -> Option<Seq<char>> {
    match o {
        Some(s) => Some(s@),
        None => None,
    }
}

impl View for Difference {
    type V = DifferenceView;

    open spec fn view(&self) -> DifferenceView {
        DifferenceView { line: self.line as int, lhs: text_view(self.lhs), rhs: text_view(self.rhs) }
    }
}

impl Difference {
    /// The difference found at the zero-based stream offset `i`.
    pub fn new(i: usize, lhs: Option<String>, rhs: Option<String>) -> (r: Self)
        requires
            i < usize::MAX,
        ensures
            r.line == i + 1,
            r.lhs == lhs,
            r.rhs == rhs,
    {
        Difference { line: i + 1, lhs, rhs }
    }
}

/// One event of the stream that the batcher reads.
pub enum DiffItem {
    Difference(Difference),
    /// A heartbeat: a positionless marker that closes any open batch.
    NoDifference,
}

pub enum ItemView {
    Difference(DifferenceView),
    Heartbeat,
}

impl View for DiffItem {
    type V = ItemView;

    open spec fn view(&self) -> ItemView {
        match self {
            DiffItem::Difference(d) => ItemView::Difference(d@),
            DiffItem::NoDifference => ItemView::Heartbeat,
        }
    }
}

pub open spec fn item_opt_view(o: Option<DiffItem>) -> Option<ItemView> {
    match o {
        Some(i) => Some(i@),
        None => None,
    }
}

/// The two lines found at one position; at most one side is absent.
pub enum Alignment {
    Both(String, String),
    LeftOnly(String),
    RightOnly(String),
}

pub enum AlignmentView {
    Both(Seq<char>, Seq<char>),
    LeftOnly(Seq<char>),
    RightOnly(Seq<char>),
}

impl View for Alignment {
    type V = AlignmentView;

    open spec fn view(&self) -> AlignmentView {
        match self {
            Alignment::Both(l, r) => AlignmentView::Both(l@, r@),
            Alignment::LeftOnly(l) => AlignmentView::LeftOnly(l@),
            Alignment::RightOnly(r) => AlignmentView::RightOnly(r@),
        }
    }
}

pub open spec fn diff_at(i: int, lhs: Option<Seq<char>>, rhs: Option<Seq<char>>) -> ItemView {
    ItemView::Difference(DifferenceView { line: i + 1, lhs, rhs })
}

/// What the pairing at zero-based offset `i` contributes to the event stream:
/// a difference where the sides differ or one is missing, a heartbeat at a
/// matching position on the heartbeat cadence, and nothing otherwise.
pub open spec fn classify_spec(i: int, a: AlignmentView) -> Option<ItemView> {
    match a {
        AlignmentView::Both(l, r) => if l != r {
            Some(diff_at(i, Some(l), Some(r)))
        } else if i % (HEARTBEAT_INTERVAL as int) == 0 {
            Some(ItemView::Heartbeat)
        } else {
            None
        },
        AlignmentView::LeftOnly(l) => Some(diff_at(i, Some(l), None)),
        AlignmentView::RightOnly(r) => Some(diff_at(i, None, Some(r))),
    }
}

/// Classifies the pairing found at zero-based offset `i`.
pub fn classify(i: usize, a: Alignment) -> (r: Option<DiffItem>)
    requires
        i < usize::MAX,
    ensures
        item_opt_view(r) == classify_spec(i as int, a@),
{
    match a {
        Alignment::Both(l, r) => {
            if l == r {
                if i % HEARTBEAT_INTERVAL == 0 {
                    Some(DiffItem::NoDifference)
                } else {
                    None
                }
            } else {
                Some(DiffItem::Difference(Difference::new(i, Some(l), Some(r))))
            }
        },
        Alignment::LeftOnly(l) => Some(DiffItem::Difference(Difference::new(i, Some(l), None))),
        Alignment::RightOnly(r) => Some(DiffItem::Difference(Difference::new(i, None, Some(r)))),
    }
}

/// Whether the zero-based offset `i` is due a progress report.
pub fn progress_due(i: usize) -> (r: bool)
    ensures
        r == (i % PROGRESS_INTERVAL == 0),
{
    i % PROGRESS_INTERVAL == 0
}

} // verus!
