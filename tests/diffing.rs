use linediff::batcher::{batch_items, Batch, Batcher};
use linediff::difference::{classify, progress_due, Alignment, DiffItem, Difference, MAX_BATCH_SIZE};
use linediff::pairing::{diff_lines, DiffStream};
use linediff::render::{push_decimal, write_difference_batches};

fn lines(v: &[&str]) -> Vec<String> {
    v.iter().map(|s| s.to_string()).collect()
}

fn numbered(prefix: &str, n: usize) -> Vec<String> {
    (0..n).map(|i| format!("{}{}", prefix, i)).collect()
}

fn text(batches: &Vec<Batch>) -> String {
    let mut out = String::new();
    write_difference_batches(&mut out, batches);
    out
}

fn shape(batches: &Vec<Batch>) -> Vec<(usize, usize)> {
    batches.iter().map(|b| (b.start, b.diffs.len())).collect()
}

#[test]
fn identical_inputs_give_no_batches() {
    let a = numbered("line ", 25_000);
    let r = diff_lines(a.clone(), a);
    assert!(r.is_empty());
    assert_eq!(text(&r), "");
}

#[test]
fn empty_inputs_give_no_batches() {
    assert!(diff_lines(vec![], vec![]).is_empty());
}

#[test]
fn single_difference_gives_one_batch() {
    let a = numbered("l", 50);
    let mut b = a.clone();
    b[16] = "changed".to_string();
    let r = diff_lines(a, b);
    assert_eq!(shape(&r), vec![(17, 1)]);
    let d = &r[0].diffs[0];
    assert_eq!(d.line, 17);
    assert_eq!(d.lhs.as_deref(), Some("l16"));
    assert_eq!(d.rhs.as_deref(), Some("changed"));
}

#[test]
fn extra_left_lines_are_left_only_and_capped() {
    let right = numbered("x", 7);
    let mut left = right.clone();
    left.extend(numbered("extra", 150));
    let r = diff_lines(left, right);
    assert_eq!(shape(&r), vec![(8, 100), (108, 50)]);
    for (k, d) in r.iter().flat_map(|b| b.diffs.iter()).enumerate() {
        assert_eq!(d.line, 8 + k);
        assert_eq!(d.lhs, Some(format!("extra{}", k)));
        assert_eq!(d.rhs, None);
    }
}

#[test]
fn extra_right_lines_are_right_only() {
    let r = diff_lines(lines(&["a"]), lines(&["a", "b", "c"]));
    assert_eq!(shape(&r), vec![(2, 2)]);
    assert_eq!(text(&r), "line 2\n< [missing]\n< [missing]\n> b\n> c\n");
}

#[test]
fn separated_differences_give_two_batches() {
    let a = numbered("l", 20);
    let mut b = a.clone();
    b[3] = "p".to_string();
    b[5] = "q".to_string();
    let r = diff_lines(a, b);
    assert_eq!(shape(&r), vec![(4, 1), (6, 1)]);
}

#[test]
fn adjacent_differences_share_a_batch() {
    let a = numbered("l", 20);
    let mut b = a.clone();
    b[3] = "p".to_string();
    b[4] = "q".to_string();
    let r = diff_lines(a, b);
    assert_eq!(shape(&r), vec![(4, 2)]);
    assert_eq!(text(&r), "line 4\n< l3\n< l4\n> p\n> q\n");
}

#[test]
fn run_of_250_differences_gives_three_batches() {
    let a = numbered("a", 300);
    let mut b = a.clone();
    for i in 10..260 {
        b[i] = format!("b{}", i);
    }
    let r = diff_lines(a, b);
    assert_eq!(shape(&r), vec![(11, 100), (111, 100), (211, 50)]);
}

#[test]
fn run_of_exactly_the_cap_is_one_batch() {
    let a = numbered("a", MAX_BATCH_SIZE);
    let b = numbered("b", MAX_BATCH_SIZE);
    assert_eq!(shape(&diff_lines(a.clone(), b.clone())), vec![(1, 100)]);
    let mut a1 = a;
    a1.push("one more".to_string());
    assert_eq!(shape(&diff_lines(a1, b)), vec![(1, 100), (101, 1)]);
}

#[test]
fn rerun_gives_identical_output() {
    let a = numbered("a", 500);
    let mut b = a.clone();
    b[3] = "z".to_string();
    b.truncate(400);
    let first = text(&diff_lines(a.clone(), b.clone()));
    let second = text(&diff_lines(a, b));
    assert_eq!(first, second);
    assert!(!first.is_empty());
}

#[test]
fn example_changed_middle_line() {
    let r = diff_lines(lines(&["a", "b", "c"]), lines(&["a", "x", "c"]));
    assert_eq!(text(&r), "line 2\n< b\n> x\n");
}

#[test]
fn example_missing_right_line() {
    let r = diff_lines(lines(&["a", "b"]), lines(&["a"]));
    assert_eq!(text(&r), "line 2\n< b\n> [missing]\n");
}

#[test]
fn heartbeat_splits_a_run() {
    let items = vec![
        DiffItem::Difference(Difference::new(4, Some("a".to_string()), None)),
        DiffItem::NoDifference,
        DiffItem::Difference(Difference::new(5, Some("b".to_string()), None)),
        DiffItem::NoDifference,
        DiffItem::NoDifference,
    ];
    assert_eq!(shape(&batch_items(items)), vec![(5, 1), (6, 1)]);
}

#[test]
fn batcher_push_closes_on_gap() {
    let mut b = Batcher::new();
    assert!(b.push(DiffItem::Difference(Difference::new(0, None, Some("r".to_string())))).is_none());
    assert!(b.push(DiffItem::Difference(Difference::new(1, None, Some("s".to_string())))).is_none());
    let closed = b.push(DiffItem::Difference(Difference::new(3, None, Some("t".to_string()))));
    let closed = closed.expect("a gap closes the batch");
    assert_eq!((closed.start, closed.diffs.len()), (1, 2));
    let last = b.finish().expect("the last batch stays open");
    assert_eq!((last.start, last.diffs.len()), (4, 1));
}

#[test]
fn classify_emits_heartbeats_on_cadence() {
    let both = |s: &str| Alignment::Both(s.to_string(), s.to_string());
    assert!(matches!(classify(0, both("x")), Some(DiffItem::NoDifference)));
    assert!(matches!(classify(20_000, both("x")), Some(DiffItem::NoDifference)));
    assert!(classify(1, both("x")).is_none());
    assert!(classify(9_999, both("x")).is_none());
    match classify(9, Alignment::Both("p".to_string(), "q".to_string())) {
        Some(DiffItem::Difference(d)) => {
            assert_eq!(d.line, 10);
            assert_eq!(d.lhs.as_deref(), Some("p"));
            assert_eq!(d.rhs.as_deref(), Some("q"));
        }
        _ => panic!("a changed line is a difference"),
    }
    match classify(10_000, Alignment::RightOnly("r".to_string())) {
        Some(DiffItem::Difference(d)) => {
            assert_eq!(d.line, 10_001);
            assert_eq!(d.lhs, None);
            assert_eq!(d.rhs.as_deref(), Some("r"));
        }
        _ => panic!("a lone right line is a difference"),
    }
}

#[test]
fn difference_new_is_one_based() {
    let d = Difference::new(0, Some("l".to_string()), None);
    assert_eq!(d.line, 1);
}

#[test]
fn progress_is_due_on_cadence() {
    assert!(progress_due(0));
    assert!(progress_due(300_000));
    assert!(!progress_due(100_001));
}

#[test]
fn decimal_digits() {
    let mut s = String::from("n=");
    push_decimal(&mut s, 0);
    assert_eq!(s, "n=0");
    let mut t = String::new();
    push_decimal(&mut t, 1_234_567_890);
    assert_eq!(t, "1234567890");
    let mut u = String::new();
    push_decimal(&mut u, usize::MAX);
    assert_eq!(u, usize::MAX.to_string());
}

#[test]
fn stream_in_pieces_matches_whole() {
    let a = numbered("a", 2_500);
    let mut b = a.clone();
    for i in (0..2_500).step_by(7) {
        b[i] = format!("b{}", i);
    }
    for i in 990..1_010 {
        b[i] = format!("run{}", i);
    }
    b.truncate(2_300);
    let whole = diff_lines(a.clone(), b.clone());
    let mut stream = DiffStream::new();
    let mut pieces: Vec<Batch> = Vec::new();
    for k in 0..3 {
        let l: Vec<String> = a.iter().skip(k * 1000).take(1000).cloned().collect();
        let r: Vec<String> = b.iter().skip(k * 1000).take(1000).cloned().collect();
        pieces.extend(stream.feed(l, r));
    }
    pieces.extend(stream.finish());
    assert_eq!(text(&pieces), text(&whole));
    assert_eq!(shape(&pieces), shape(&whole));
}
