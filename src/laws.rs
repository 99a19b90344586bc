//! What holds of the batches reported for whole inputs.

use vstd::prelude::*;
use crate::difference::{classify_spec, AlignmentView, DifferenceView, ItemView, MAX_BATCH_SIZE};
use crate::batcher::{batches, emit, extends, opened, run_from, step, BatchView};
use crate::pairing::{alignment_at, events, events_of, pair_count, pairing, report};

verus! {

pub open spec fn all_heartbeats(s: Seq<ItemView>) -> bool {
    forall|i: int| 0 <= i < s.len() ==> s[i] == ItemView::Heartbeat
}

/// The event stream of a sequence of differences, none of them separated.
pub open spec fn as_events(d: Seq<DifferenceView>) -> Seq<ItemView> {
    d.map_values(|x: DifferenceView| ItemView::Difference(x))
}

pub open spec fn is_match(a: AlignmentView) -> bool {
    match a {
        AlignmentView::Both(l, r) => l == r,
        _ => false,
    }
}

proof fn lemma_emit_concat(x: Seq<BatchView>, y: Seq<BatchView>, c: Option<BatchView>)
    ensures
        emit(x + y, c) == x + emit(y, c),
{
    match c {
        Some(b) => {
            assert((x + y).push(b) =~= x + y.push(b));
        },
        None => {},
    }
}

/// Reading `a` then `b` is reading `a + b`.
pub proof fn lemma_run_concat(o: Option<BatchView>, a: Seq<ItemView>, b: Seq<ItemView>)
    ensures
        run_from(o, a + b) == (
            run_from(o, a).0 + run_from(run_from(o, a).1, b).0,
            run_from(run_from(o, a).1, b).1,
        ),
    decreases b.len(),
{
    if b.len() == 0 {
        assert(a + b =~= a);
        assert(run_from(o, a).0 + Seq::<BatchView>::empty() =~= run_from(o, a).0);
    } else {
        lemma_run_concat(o, a, b.drop_last());
        assert((a + b).drop_last() =~= a + b.drop_last());
        assert((a + b).last() == b.last());
        let mid = run_from(o, a).1;
        let d2 = run_from(mid, b.drop_last()).0;
        let c2 = run_from(mid, b.drop_last()).1;
        lemma_emit_concat(run_from(o, a).0, d2, step(c2, b.last()).1);
    }
}

/// Heartbeats close the open batch and change nothing else.
pub proof fn lemma_run_heartbeats(o: Option<BatchView>, h: Seq<ItemView>)
    requires
        all_heartbeats(h),
    ensures
        h.len() == 0 ==> run_from(o, h) == (Seq::<BatchView>::empty(), o),
        h.len() > 0 ==> run_from(o, h) == (emit(Seq::empty(), o), None::<BatchView>),
    decreases h.len(),
{
    if h.len() > 0 {
        assert(all_heartbeats(h.drop_last()));
        lemma_run_heartbeats(o, h.drop_last());
        assert(h.last() == ItemView::Heartbeat);
    }
}

/// Heartbeats before the first difference change no batch.
pub proof fn lemma_heartbeat_prefix(h: Seq<ItemView>, e: Seq<ItemView>)
    requires
        all_heartbeats(h),
    ensures
        batches(h + e) == batches(e),
{
    lemma_run_heartbeats(None, h);
    lemma_run_concat(None, h, e);
    assert(Seq::<BatchView>::empty() + run_from(None, e).0 =~= run_from(None, e).0);
}

/// The event stream of `p + q` is that of `p` followed by that of `q`.
pub proof fn lemma_events_concat(p: Seq<AlignmentView>, q: Seq<AlignmentView>, off: int)
    ensures
        events_of(p + q, off) == events_of(p, off) + events_of(q, off + p.len()),
    decreases q.len(),
{
    if q.len() == 0 {
        assert(p + q =~= p);
        assert(events_of(p, off) + Seq::<ItemView>::empty() =~= events_of(p, off));
    } else {
        lemma_events_concat(p, q.drop_last(), off);
        assert((p + q).drop_last() =~= p + q.drop_last());
        assert((p + q).last() == q.last());
        let ep = events_of(p, off);
        let eq = events_of(q.drop_last(), off + p.len());
        match classify_spec(off + p.len() + q.len() - 1, q.last()) {
            Some(e) => {
                assert((ep + eq).push(e) =~= ep + eq.push(e));
            },
            None => {},
        }
    }
}

proof fn lemma_events_single(a: AlignmentView, off: int)
    ensures
        events_of(seq![a], off) == match classify_spec(off, a) {
            Some(e) => seq![e],
            None => Seq::<ItemView>::empty(),
        },
{
    let s = seq![a];
    assert(s.drop_last() =~= Seq::<AlignmentView>::empty());
    assert(s.len() == 1 && s.last() == a);
    assert(events_of(Seq::<AlignmentView>::empty(), off) == Seq::<ItemView>::empty());
    assert(off + s.len() - 1 == off);
    match classify_spec(off, a) {
        Some(e) => {
            assert(Seq::<ItemView>::empty().push(e) =~= seq![e]);
        },
        None => {},
    }
}

/// Matching pairings produce heartbeats only.
pub proof fn lemma_matching_heartbeats(p: Seq<AlignmentView>, off: int)
    requires
        forall|i: int| 0 <= i < p.len() ==> is_match(#[trigger] p[i]),
    ensures
        all_heartbeats(events_of(p, off)),
    decreases p.len(),
{
    if p.len() > 0 {
        lemma_matching_heartbeats(p.drop_last(), off);
        assert(is_match(p[p.len() - 1]));
    }
}

proof fn lemma_run_single(o: Option<BatchView>, x: ItemView)
    ensures
        run_from(o, seq![x]) == (emit(Seq::empty(), step(o, x).1), step(o, x).0),
{
    let s = seq![x];
    assert(s.drop_last() =~= Seq::<ItemView>::empty());
    assert(s.len() == 1 && s.last() == x);
    assert(run_from(o, s.drop_last()) == (Seq::<BatchView>::empty(), o));
}

/// One difference between heartbeats forms one batch of its own.
pub proof fn lemma_isolated_difference(h1: Seq<ItemView>, d: DifferenceView, h2: Seq<ItemView>)
    requires
        all_heartbeats(h1),
        all_heartbeats(h2),
    ensures
        batches(h1 + seq![ItemView::Difference(d)] + h2) == seq![opened(d)],
{
    let e = seq![ItemView::Difference(d)];
    assert(h1 + e + h2 =~= h1 + (e + h2));
    lemma_heartbeat_prefix(h1, e + h2);
    lemma_run_concat(None, e, h2);
    lemma_run_single(None, ItemView::Difference(d));
    lemma_run_heartbeats(Some(opened(d)), h2);
    assert(Seq::<BatchView>::empty().push(opened(d)) =~= seq![opened(d)]);
}

/// Two differences on lines that are not adjacent, with only heartbeats
/// around them, form two batches of one difference each.
pub proof fn lemma_two_isolated_differences(
    h1: Seq<ItemView>,
    d1: DifferenceView,
    hm: Seq<ItemView>,
    d2: DifferenceView,
    h2: Seq<ItemView>,
)
    requires
        all_heartbeats(h1),
        all_heartbeats(hm),
        all_heartbeats(h2),
        d2.line != d1.line + 1,
    ensures
        batches(h1 + seq![ItemView::Difference(d1)] + hm + seq![ItemView::Difference(d2)] + h2)
            == seq![opened(d1), opened(d2)],
{
    let e1 = seq![ItemView::Difference(d1)];
    let e2 = seq![ItemView::Difference(d2)];
    let o1 = opened(d1);
    let o2 = opened(d2);
    let empty = Seq::<BatchView>::empty();
    assert(h1 + e1 + hm + e2 + h2 =~= h1 + (e1 + hm + e2 + h2));
    lemma_heartbeat_prefix(h1, e1 + hm + e2 + h2);
    lemma_run_concat(None, e1 + hm + e2, h2);
    lemma_run_concat(None, e1 + hm, e2);
    lemma_run_concat(None, e1, hm);
    lemma_run_single(None, ItemView::Difference(d1));
    lemma_run_heartbeats(Some(o1), hm);
    lemma_run_single(Some(o1), ItemView::Difference(d2));
    lemma_run_single(None, ItemView::Difference(d2));
    assert(!extends(o1, d2));
    lemma_run_heartbeats(Some(o2), h2);
    assert(empty.push(o1) =~= seq![o1]);
    assert(seq![o1].push(o2) =~= seq![o1, o2]);
    assert(empty + seq![o1] =~= seq![o1]);
    assert(seq![o1] + empty =~= seq![o1]);
    assert(empty + empty =~= empty);
    assert(seq![o1] + empty.push(o2) =~= seq![o1, o2]);
}

/// The pairing of two inputs of one length pairs each line with the line
/// at the same offset.
proof fn lemma_pairing_same_length(left: Seq<Seq<char>>, right: Seq<Seq<char>>)
    requires
        left.len() == right.len(),
    ensures
        pairing(left, right).len() == left.len(),
        forall|i: int| 0 <= i < left.len() ==>
            #[trigger] pairing(left, right)[i] == AlignmentView::Both(left[i], right[i]),
{
}

/// Two identical inputs produce no batch.
pub proof fn lemma_identical_inputs(lines: Seq<Seq<char>>)
    ensures
        report(lines, lines).len() == 0,
{
    let p = pairing(lines, lines);
    lemma_pairing_same_length(lines, lines);
    assert forall|i: int| 0 <= i < p.len() implies is_match(#[trigger] p[i]) by {}
    lemma_matching_heartbeats(p, 0);
    let e = crate::pairing::events(lines, lines);
    lemma_run_heartbeats(None, e);
}

pub open spec fn both_diff(left: Seq<Seq<char>>, right: Seq<Seq<char>>, k: int) -> DifferenceView {
    DifferenceView { line: k + 1, lhs: Some(left[k]), rhs: Some(right[k]) }
}

/// Splits the event stream of same-length inputs at a differing offset `k`.
proof fn lemma_events_split(left: Seq<Seq<char>>, right: Seq<Seq<char>>, k: int)
    requires
        left.len() == right.len(),
        0 <= k < left.len(),
        left[k] != right[k],
    ensures
        events_of(pairing(left, right), 0) == events_of(pairing(left, right).take(k), 0)
            + seq![ItemView::Difference(both_diff(left, right, k))]
            + events_of(pairing(left, right).skip(k + 1), k + 1),
{
    let p = pairing(left, right);
    lemma_pairing_same_length(left, right);
    assert(p =~= p.take(k) + seq![p[k]] + p.skip(k + 1));
    lemma_events_concat(p.take(k) + seq![p[k]], p.skip(k + 1), 0);
    lemma_events_concat(p.take(k), seq![p[k]], 0);
    lemma_events_single(p[k], k);
}

/// Two inputs of one length that differ only at zero-based offset `k` give
/// exactly one batch, at line `k + 1`, holding the one difference with both
/// of its lines.
pub proof fn lemma_single_difference(left: Seq<Seq<char>>, right: Seq<Seq<char>>, k: int)
    requires
        left.len() == right.len(),
        0 <= k < left.len(),
        left[k] != right[k],
        forall|i: int| 0 <= i < left.len() && i != k ==> left[i] == right[i],
    ensures
        report(left, right) == seq![BatchView { start: k + 1, diffs: seq![both_diff(left, right, k)] }],
{
    let p = pairing(left, right);
    lemma_pairing_same_length(left, right);
    lemma_events_split(left, right, k);
    let a = p.take(k);
    let b = p.skip(k + 1);
    assert forall|i: int| 0 <= i < a.len() implies is_match(#[trigger] a[i]) by {
        assert(a[i] == p[i]);
    }
    assert forall|i: int| 0 <= i < b.len() implies is_match(#[trigger] b[i]) by {
        assert(b[i] == p[i + k + 1]);
    }
    lemma_matching_heartbeats(a, 0);
    lemma_matching_heartbeats(b, k + 1);
    lemma_isolated_difference(events_of(a, 0), both_diff(left, right, k), events_of(b, k + 1));
}

/// Two inputs of one length that differ only at offsets `k1` and `k2`, with
/// at least one matching line between them, give exactly two batches of one
/// difference each, at lines `k1 + 1` and `k2 + 1`.
pub proof fn lemma_separated_differences(left: Seq<Seq<char>>, right: Seq<Seq<char>>, k1: int, k2: int)
    requires
        left.len() == right.len(),
        0 <= k1,
        k1 + 1 < k2 < left.len(),
        left[k1] != right[k1],
        left[k2] != right[k2],
        forall|i: int| 0 <= i < left.len() && i != k1 && i != k2 ==> left[i] == right[i],
    ensures
        report(left, right) == seq![
            BatchView { start: k1 + 1, diffs: seq![both_diff(left, right, k1)] },
            BatchView { start: k2 + 1, diffs: seq![both_diff(left, right, k2)] },
        ],
{
    let p = pairing(left, right);
    lemma_pairing_same_length(left, right);
    lemma_events_split(left, right, k2);
    let before = p.take(k2);
    let after = p.skip(k2 + 1);
    assert(before =~= before.take(k1) + seq![before[k1]] + before.skip(k1 + 1));
    lemma_events_concat(before.take(k1) + seq![before[k1]], before.skip(k1 + 1), 0);
    lemma_events_concat(before.take(k1), seq![before[k1]], 0);
    lemma_events_single(before[k1], k1);
    let a = before.take(k1);
    let m = before.skip(k1 + 1);
    assert forall|i: int| 0 <= i < a.len() implies is_match(#[trigger] a[i]) by {
        assert(a[i] == p[i]);
    }
    assert forall|i: int| 0 <= i < m.len() implies is_match(#[trigger] m[i]) by {
        assert(m[i] == p[i + k1 + 1]);
    }
    assert forall|i: int| 0 <= i < after.len() implies is_match(#[trigger] after[i]) by {
        assert(after[i] == p[i + k2 + 1]);
    }
    lemma_matching_heartbeats(a, 0);
    lemma_matching_heartbeats(m, k1 + 1);
    lemma_matching_heartbeats(after, k2 + 1);
    assert(before[k1] == AlignmentView::Both(left[k1], right[k1]));
    lemma_two_isolated_differences(
        events_of(a, 0),
        both_diff(left, right, k1),
        events_of(m, k1 + 1),
        both_diff(left, right, k2),
        events_of(after, k2 + 1),
    );
}

/// The `j`-th piece, counting from 0, of the run `d` that starts at line `s`
/// when it is cut into pieces of the cap.
pub open spec fn chunk(d: Seq<DifferenceView>, s: int, j: int) -> BatchView {
    let c = MAX_BATCH_SIZE as int;
    BatchView {
        start: s + c * j,
        diffs: d.subrange(c * j, if c * j + c < d.len() { c * j + c } else { d.len() as int }),
    }
}

pub open spec fn consecutive_from(d: Seq<DifferenceView>, s: int) -> bool {
    forall|i: int| 0 <= i < d.len() ==> #[trigger] d[i].line == s + i
}

proof fn lemma_run_prefix(d: Seq<DifferenceView>, s: int, k: int)
    requires
        consecutive_from(d, s),
        1 <= k <= d.len(),
    ensures
        run_from(None, as_events(d).take(k)).0.len() == (k - 1) / (MAX_BATCH_SIZE as int),
        forall|j: int| 0 <= j < (k - 1) / (MAX_BATCH_SIZE as int) ==>
            #[trigger] run_from(None, as_events(d).take(k)).0[j] == chunk(d, s, j),
        run_from(None, as_events(d).take(k)).1 == Some(BatchView {
            start: s + 100 * ((k - 1) / 100),
            diffs: d.subrange(100 * ((k - 1) / 100), k),
        }),
    decreases k,
{
    let e = as_events(d);
    if k == 1 {
        assert(e.take(1) =~= seq![ItemView::Difference(d[0])]);
        lemma_run_single(None, ItemView::Difference(d[0]));
        assert(d.subrange(0, 1) =~= seq![d[0]]);
    } else {
        lemma_run_prefix(d, s, k - 1);
        assert(e.take(k).drop_last() =~= e.take(k - 1));
        assert(e.take(k).last() == ItemView::Difference(d[k - 1]));
        let q = (k - 2) / 100;
        let ob = BatchView { start: s + 100 * q, diffs: d.subrange(100 * q, k - 1) };
        assert(ob.diffs.last() == d[k - 2]);
        assert(d[k - 1].line == s + k - 1);
        assert(d[k - 2].line == s + k - 2);
        if k - 1 - 100 * q < 100 {
            assert((k - 1) / 100 == q);
            assert(ob.diffs.push(d[k - 1]) =~= d.subrange(100 * q, k));
        } else {
            assert((k - 1) / 100 == q + 1);
            assert(d.subrange(100 * (q + 1), k) =~= seq![d[k - 1]]);
            assert(ob == chunk(d, s, q));
        }
    }
}

/// A run of differences on consecutive lines, starting at line `s`, with no
/// heartbeat inside it, is cut into batches of the cap in order, the last
/// one holding what is left: batch `j` starts at line `s + cap * j`.
pub proof fn lemma_consecutive_run(d: Seq<DifferenceView>, s: int)
    requires
        consecutive_from(d, s),
    ensures
        batches(as_events(d)).len() == (d.len() + MAX_BATCH_SIZE - 1) / (MAX_BATCH_SIZE as int),
        forall|j: int| 0 <= j < batches(as_events(d)).len() ==>
            #[trigger] batches(as_events(d))[j] == chunk(d, s, j),
{
    let n = d.len() as int;
    let e = as_events(d);
    if n == 0 {
        assert(e =~= Seq::<ItemView>::empty());
    } else {
        lemma_run_prefix(d, s, n);
        assert(e.take(n) =~= e);
        let q = (n - 1) / 100;
        assert(run_from(None, e).1 == Some(chunk(d, s, q)));
    }
}

/// The left-only differences of the lines `t`, the first at offset `off`.
pub open spec fn left_only_run(t: Seq<Seq<char>>, off: int) -> Seq<DifferenceView> {
    Seq::new(t.len(), |i: int| DifferenceView { line: off + i + 1, lhs: Some(t[i]), rhs: None })
}

proof fn lemma_left_only_events(q: Seq<AlignmentView>, off: int, t: Seq<Seq<char>>)
    requires
        q.len() == t.len(),
        forall|i: int| 0 <= i < q.len() ==> #[trigger] q[i] == AlignmentView::LeftOnly(t[i]),
    ensures
        events_of(q, off) == as_events(left_only_run(t, off)),
    decreases q.len(),
{
    if q.len() == 0 {
        assert(as_events(left_only_run(t, off)) =~= Seq::<ItemView>::empty());
    } else {
        lemma_left_only_events(q.drop_last(), off, t.drop_last());
        assert(q.last() == AlignmentView::LeftOnly(t.last()));
        assert(as_events(left_only_run(t, off)) =~= as_events(left_only_run(t.drop_last(), off)).push(
            ItemView::Difference(DifferenceView { line: off + q.len(), lhs: Some(t.last()), rhs: None }),
        ));
    }
}

/// When the left input is the right one followed by more lines, the extra
/// lines are reported as left-only differences, in batches of the cap
/// that start at the line after the right input's last.
pub proof fn lemma_extra_left_lines(left: Seq<Seq<char>>, right: Seq<Seq<char>>)
    requires
        right.len() <= left.len(),
        forall|i: int| 0 <= i < right.len() ==> left[i] == right[i],
    ensures
        report(left, right).len()
            == (left.len() - right.len() + MAX_BATCH_SIZE - 1) / (MAX_BATCH_SIZE as int),
        forall|j: int| 0 <= j < report(left, right).len() ==>
            #[trigger] report(left, right)[j]
                == chunk(left_only_run(left.skip(right.len() as int), right.len() as int), (right.len() + 1) as int, j),
{
    let n = right.len() as int;
    let p = pairing(left, right);
    let t = left.skip(n);
    let d = left_only_run(t, n);
    assert(p =~= p.take(n) + p.skip(n));
    lemma_events_concat(p.take(n), p.skip(n), 0);
    let a = p.take(n);
    let b = p.skip(n);
    assert forall|i: int| 0 <= i < a.len() implies is_match(#[trigger] a[i]) by {
        assert(a[i] == p[i]);
    }
    assert forall|i: int| 0 <= i < b.len() implies #[trigger] b[i] == AlignmentView::LeftOnly(t[i]) by {
        assert(b[i] == p[i + n]);
    }
    lemma_matching_heartbeats(a, 0);
    lemma_left_only_events(b, n, t);
    lemma_heartbeat_prefix(events_of(a, 0), as_events(d));
    assert(consecutive_from(d, n + 1));
    lemma_consecutive_run(d, n + 1);
}

/// Whether pieces `l1` and `r1` start the inputs `l1 + l2` and `r1 + r2` at
/// one offset: they have one length, or the shorter one is all that its
/// input holds.
pub open spec fn aligned_pieces(
    l1: Seq<Seq<char>>,
    l2: Seq<Seq<char>>,
    r1: Seq<Seq<char>>,
    r2: Seq<Seq<char>>,
) -> bool {
    ||| l1.len() == r1.len()
    ||| (l1.len() < r1.len() && l2.len() == 0)
    ||| (r1.len() < l1.len() && r2.len() == 0)
}

/// The pairing of aligned pieces, one after the other, is the pairing of
/// the whole inputs.
pub proof fn lemma_pairing_pieces(
    l1: Seq<Seq<char>>,
    l2: Seq<Seq<char>>,
    r1: Seq<Seq<char>>,
    r2: Seq<Seq<char>>,
)
    requires
        aligned_pieces(l1, l2, r1, r2),
    ensures
        pairing(l1 + l2, r1 + r2) == pairing(l1, r1) + pairing(l2, r2),
{
    let whole = pairing(l1 + l2, r1 + r2);
    let parts = pairing(l1, r1) + pairing(l2, r2);
    let c1 = pair_count(l1, r1);
    assert(whole.len() == parts.len());
    assert forall|i: int| 0 <= i < whole.len() implies whole[i] == parts[i] by {
        if i < c1 {
            assert(parts[i] == alignment_at(l1, r1, i));
        } else {
            assert(parts[i] == alignment_at(l2, r2, i - c1));
        }
    }
    assert(whole =~= parts);
}

/// Comparing the inputs a piece at a time, carrying the open batch from one
/// piece to the next and closing it at the end, reports exactly the batches
/// of comparing them whole.
pub proof fn lemma_two_pieces(
    l1: Seq<Seq<char>>,
    l2: Seq<Seq<char>>,
    r1: Seq<Seq<char>>,
    r2: Seq<Seq<char>>,
)
    requires
        aligned_pieces(l1, l2, r1, r2),
    ensures
        ({
            let first = run_from(None, events_of(pairing(l1, r1), 0));
            let second = run_from(first.1, events_of(pairing(l2, r2), pair_count(l1, r1)));
            first.0 + second.0 + emit(Seq::empty(), second.1) == report(l1 + l2, r1 + r2)
        }),
{
    let e1 = events_of(pairing(l1, r1), 0);
    let e2 = events_of(pairing(l2, r2), pair_count(l1, r1));
    lemma_pairing_pieces(l1, l2, r1, r2);
    lemma_events_concat(pairing(l1, r1), pairing(l2, r2), 0);
    assert(events(l1 + l2, r1 + r2) == e1 + e2);
    lemma_run_concat(None, e1, e2);
    let first = run_from(None, e1);
    let second = run_from(first.1, e2);
    lemma_emit_concat(first.0, second.0, second.1);
    lemma_emit_concat(first.0 + second.0, Seq::empty(), second.1);
    assert(first.0 + second.0 + Seq::<BatchView>::empty() =~= first.0 + second.0);
}

} // verus!
