use tfbindiff::diff::DiffOp;
use tfbindiff::split_diff::{build, DiffCell, MAX_SAME_BEFORE_COLLAPSE};

#[test]
fn short_equal_run_is_shown_whole() {
    let old = [1, 2, 3];
    let new = [1, 2, 3];
    let cells = build(&old, &new, &[DiffOp::Equal { old_index: 0, new_index: 0, len: 3 }]);
    assert_eq!(cells, vec![
        (DiffCell::Default(1), DiffCell::Default(1)),
        (DiffCell::Default(2), DiffCell::Default(2)),
        (DiffCell::Default(3), DiffCell::Default(3)),
    ]);
}

#[test]
fn long_equal_run_is_collapsed() {
    let old: Vec<u32> = (0..40).collect();
    let new: Vec<u32> = (100..140).collect();
    let cells = build(&old, &new, &[DiffOp::Equal { old_index: 0, new_index: 0, len: 40 }]);
    let k = MAX_SAME_BEFORE_COLLAPSE;
    assert_eq!(cells.len(), 2 * k + 1);
    assert_eq!(cells[0], (DiffCell::Default(0), DiffCell::Default(100)));
    assert_eq!(cells[k - 1], (DiffCell::Default(14), DiffCell::Default(114)));
    assert_eq!(cells[k], (DiffCell::Collapsed, DiffCell::Collapsed));
    assert_eq!(cells[k + 1], (DiffCell::Default(25), DiffCell::Default(125)));
    assert_eq!(cells[2 * k], (DiffCell::Default(39), DiffCell::Default(139)));
}

#[test]
fn equal_run_of_exactly_twice_the_limit_is_collapsed() {
    let old: Vec<u32> = (0..30).collect();
    let cells = build(&old, &old, &[DiffOp::Equal { old_index: 0, new_index: 0, len: 30 }]);
    assert_eq!(cells.len(), 31);
    let short: Vec<u32> = (0..29).collect();
    let cells = build(&short, &short, &[DiffOp::Equal { old_index: 0, new_index: 0, len: 29 }]);
    assert_eq!(cells.len(), 29);
}

#[test]
fn delete_insert_and_replace_rows() {
    let old = [1, 2, 3, 4];
    let new = [7, 8, 9];
    let ops = [
        DiffOp::Delete { old_index: 0, old_len: 1, new_index: 0 },
        DiffOp::Replace { old_index: 1, old_len: 3, new_index: 0, new_len: 2 },
        DiffOp::Insert { old_index: 4, new_index: 2, new_len: 1 },
    ];
    let cells = build(&old, &new, &ops);
    assert_eq!(cells, vec![
        (DiffCell::Delete(1), DiffCell::Hidden),
        (DiffCell::Delete(2), DiffCell::Insert(7)),
        (DiffCell::Delete(3), DiffCell::Insert(8)),
        (DiffCell::Delete(4), DiffCell::Hidden),
        (DiffCell::Hidden, DiffCell::Insert(9)),
    ]);
}

#[test]
fn every_changed_line_appears_once() {
    let old = [1, 2];
    let new = [3, 4, 5];
    let cells = build(&old, &new, &[DiffOp::Replace { old_index: 0, old_len: 2, new_index: 0, new_len: 3 }]);
    let left: Vec<i32> = cells.iter().filter_map(|c| if let DiffCell::Delete(x) = c.0 { Some(x) } else { None }).collect();
    let right: Vec<i32> = cells.iter().filter_map(|c| if let DiffCell::Insert(x) = c.1 { Some(x) } else { None }).collect();
    assert_eq!(left, vec![1, 2]);
    assert_eq!(right, vec![3, 4, 5]);
}

#[test]
fn no_ops_no_rows() {
    let cells = build::<u8>(&[], &[], &[]);
    assert!(cells.is_empty());
}
