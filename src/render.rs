//! Text rendering of batches.
//!
//! A batch is written as a header line `line <start>`, then one `< ` line
//! per difference with its left text, then one `> ` line per difference with
//! its right text; a missing side is written as `[missing]`.

use vstd::prelude::*;
use vstd::string::*;
use crate::difference::{Difference, DifferenceView};
use crate::batcher::{batches_view, diffs_view, Batch, BatchView};

verus! {

pub open spec fn digit_char(d: int) -> char {
    if d == 0 { '0' } else if d == 1 { '1' } else if d == 2 { '2' } else if d == 3 { '3' }
    else if d == 4 { '4' } else if d == 5 { '5' } else if d == 6 { '6' } else if d == 7 { '7' }
    else if d == 8 { '8' } else { '9' }
}

/// The decimal digits of `n`, most significant first, without leading zeros.
pub open spec fn decimal(n: nat) -> Seq<char>
    decreases n,
{
    if n < 10 {
        seq![digit_char(n as int)]
    } else {
        decimal(n / 10).push(digit_char((n % 10) as int))
    }
}

/// The text written for one side of a difference.
pub open spec fn side_text(t: Option<Seq<char>>) -> Seq<char> {
    match t {
        Some(s) => s,
        None => "[missing]"@,
    }
}

/// The `< ` lines of `diffs`, in order.
pub open spec fn left_lines(diffs: Seq<DifferenceView>) -> Seq<char>
    decreases diffs.len(),
{
    if diffs.len() == 0 {
        Seq::empty()
    } else {
        left_lines(diffs.drop_last()) + "< "@ + side_text(diffs.last().lhs) + "\n"@
    }
}

/// The `> ` lines of `diffs`, in order.
pub open spec fn right_lines(diffs: Seq<DifferenceView>) -> Seq<char>
    decreases diffs.len(),
{
    if diffs.len() == 0 {
        Seq::empty()
    } else {
        right_lines(diffs.drop_last()) + "> "@ + side_text(diffs.last().rhs) + "\n"@
    }
}

/// The text of one batch.
pub open spec fn batch_text(b: BatchView) -> Seq<char> {
    "line "@ + decimal(b.start as nat) + "\n"@ + left_lines(b.diffs) + right_lines(b.diffs)
}

/// The text of a sequence of batches, in order.
pub open spec fn batches_text(bs: Seq<BatchView>) -> Seq<char>
    decreases bs.len(),
{
    if bs.len() == 0 {
        Seq::empty()
    } else {
        batches_text(bs.drop_last()) + batch_text(bs.last())
    }
}

fn digit_str(d: usize) -> (r: &'static str)
    requires
        d < 10,
    ensures
        r@ == seq![digit_char(d as int)],
{
    proof {
        reveal_strlit("0");
        reveal_strlit("1");
        reveal_strlit("2");
        reveal_strlit("3");
        reveal_strlit("4");
        reveal_strlit("5");
        reveal_strlit("6");
        reveal_strlit("7");
        reveal_strlit("8");
        reveal_strlit("9");
    }
    if d == 0 { "0" } else if d == 1 { "1" } else if d == 2 { "2" } else if d == 3 { "3" }
    else if d == 4 { "4" } else if d == 5 { "5" } else if d == 6 { "6" } else if d == 7 { "7" }
    else if d == 8 { "8" } else { "9" }
}

/// Appends the decimal digits of `n`.
pub fn push_decimal(out: &mut String, n: usize)
    ensures
        final(out)@ == old(out)@ + decimal(n as nat),
    decreases n,
{
    if n < 10 {
        out.append(digit_str(n));
    } else {
        push_decimal(out, n / 10);
        out.append(digit_str(n % 10));
        assert(decimal(n as nat) == decimal((n / 10) as nat).push(digit_char((n % 10) as int)));
    }
}

fn push_side(out: &mut String, prefix: &str, t: &Option<String>)
    ensures
        final(out)@ == old(out)@ + prefix@ + side_text(crate::difference::text_view(*t)) + "\n"@,
{
    out.append(prefix);
    match t {
        Some(s) => out.append(s.as_str()),
        None => out.append("[missing]"),
    }
    out.append("\n");
}

/// Appends the text of one batch.
pub fn write_batch(out: &mut String, b: &Batch)
    ensures
        final(out)@ == old(out)@ + batch_text(b@),
{
    let ghost start = out@;
    let ghost dv = diffs_view(b.diffs@);
    out.append("line ");
    push_decimal(out, b.start);
    out.append("\n");
    let ghost head = out@;
    assert(head == start + "line "@ + decimal(b.start as nat) + "\n"@);
    let n = b.diffs.len();
    let mut i: usize = 0;
    while i < n
        invariant
            n == b.diffs.len(),
            dv == diffs_view(b.diffs@),
            0 <= i <= n,
            out@ == head + left_lines(dv.take(i as int)),
        decreases n - i,
    {
        let d: &Difference = &b.diffs[i];
        push_side(out, "< ", &d.lhs);
        proof {
            assert(dv.take(i + 1).drop_last() =~= dv.take(i as int));
        }
        i = i + 1;
    }
    assert(dv.take(n as int) =~= dv);
    let ghost mid = out@;
    let mut j: usize = 0;
    while j < n
        invariant
            n == b.diffs.len(),
            dv == diffs_view(b.diffs@),
            0 <= j <= n,
            out@ == mid + right_lines(dv.take(j as int)),
        decreases n - j,
    {
        let d: &Difference = &b.diffs[j];
        push_side(out, "> ", &d.rhs);
        proof {
            assert(dv.take(j + 1).drop_last() =~= dv.take(j as int));
        }
        j = j + 1;
    }
    assert(dv.take(n as int) =~= dv);
    assert(out@ =~= start + batch_text(b@));
}

/// Appends the text of every batch of `batches`, in order.
pub fn write_difference_batches(target: &mut String, batches: &Vec<Batch>)
    ensures
        final(target)@ == old(target)@ + batches_text(batches_view(batches@)),
{
    let ghost start = target@;
    let ghost bv = batches_view(batches@);
    let n = batches.len();
    let mut i: usize = 0;
    while i < n
        invariant
            n == batches.len(),
            bv == batches_view(batches@),
            0 <= i <= n,
            target@ == start + batches_text(bv.take(i as int)),
        decreases n - i,
    {
        write_batch(target, &batches[i]);
        proof {
            assert(bv.take(i + 1).drop_last() =~= bv.take(i as int));
            assert(target@ =~= start + batches_text(bv.take(i + 1)));
        }
        i = i + 1;
    }
    assert(bv.take(n as int) =~= bv);
}

} // verus!
