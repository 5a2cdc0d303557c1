use std::collections::HashMap;
use tfbindiff::compare::{compare_functions, compare_programs, CompareError, CompareResult};
use tfbindiff::diff::DiffOp;
use tfbindiff::program::{Function, Program};

fn program(pointer_size: usize, functions: Vec<(&str, u64, Vec<u8>)>) -> Program {
    let mut symbol_map = HashMap::new();
    let mut fns = Vec::new();
    for (name, address, content) in functions {
        symbol_map.insert(address, name.to_string());
        fns.push((name.to_string(), Function::new(address, content)));
    }
    Program { pointer_size, functions: fns, symbol_map }
}

fn ops_of(r: Result<CompareResult, CompareError>) -> Vec<DiffOp> {
    match r.unwrap() {
        CompareResult::Differs(info) => info.diff_ops,
        CompareResult::Same => panic!("expected a difference"),
    }
}

// push ebp; mov ebp, esp; <middle>; pop ebp; ret
fn framed(middle: &[u8]) -> Vec<u8> {
    let mut v = vec![0x55, 0x89, 0xe5];
    v.extend_from_slice(middle);
    v.extend_from_slice(&[0x5d, 0xc3]);
    v
}

#[test]
fn identical_programs_have_no_changes() {
    let p = program(4, vec![("f", 0x1000, framed(&[0x89, 0xd8])), ("g", 0x2000, framed(&[0x90]))]);
    let changes = compare_programs(&p, &p).unwrap();
    assert!(changes.is_empty());
}

#[test]
fn identical_bytes_are_not_decoded() {
    // SUB ESP, EAX would stop the stack-depth probe, but identical bytes never reach it
    let body = framed(&[0x29, 0xc4]);
    let f1 = Function::new(0x1000, body.clone());
    let f2 = Function::new(0x5000, body);
    assert!(matches!(compare_functions(4, &f1, &f2), Ok(CompareResult::Same)));
}

#[test]
fn immediate_only_change_is_same() {
    let f1 = Function::new(0x1000, framed(&[0xb8, 0x01, 0x00, 0x00, 0x00]));
    let f2 = Function::new(0x1000, framed(&[0xb8, 0x02, 0x00, 0x00, 0x00]));
    assert!(matches!(compare_functions(4, &f1, &f2), Ok(CompareResult::Same)));
}

#[test]
fn register_reassignment_is_one_replace() {
    let f1 = Function::new(0x1000, framed(&[0x89, 0xd8]));
    let f2 = Function::new(0x1000, framed(&[0x89, 0xc8]));
    let ops = ops_of(compare_functions(4, &f1, &f2));
    let replaces: Vec<&DiffOp> = ops.iter().filter(|op| !matches!(op, DiffOp::Equal { .. })).collect();
    assert_eq!(replaces, vec![&DiffOp::Replace { old_index: 2, old_len: 1, new_index: 2, new_len: 1 }]);
}

#[test]
fn frame_size_change_differs() {
    let f1 = Function::new(0x1000, framed(&[0x83, 0xec, 0x10]));
    let f2 = Function::new(0x1000, framed(&[0x83, 0xec, 0x20]));
    assert!(matches!(compare_functions(4, &f1, &f2), Ok(CompareResult::Differs(_))));
}

#[test]
fn frame_size_change_with_32_bit_immediate_differs() {
    let f1 = Function::new(0x1000, framed(&[0x81, 0xec, 0x00, 0x01, 0x00, 0x00]));
    let f2 = Function::new(0x1000, framed(&[0x81, 0xec, 0x00, 0x02, 0x00, 0x00]));
    assert!(matches!(compare_functions(4, &f1, &f2), Ok(CompareResult::Differs(_))));
}

#[test]
fn unhandled_stack_operand_is_an_error() {
    let f1 = Function::new(0x1000, framed(&[0x29, 0xc4]));
    let f2 = Function::new(0x2000, framed(&[0x29, 0xc4, 0x90]));
    assert_eq!(compare_functions(4, &f1, &f2).err(), Some(CompareError::UnhandledInstructionShape(0x1000)));
}

#[test]
fn added_nop_is_one_insert() {
    let f1 = Function::new(0x1000, framed(&[0x89, 0xd8, 0x89, 0xd9]));
    let f2 = Function::new(0x1000, framed(&[0x89, 0xd8, 0x90, 0x89, 0xd9]));
    let ops = ops_of(compare_functions(4, &f1, &f2));
    assert_eq!(
        ops,
        vec![
            DiffOp::Equal { old_index: 0, new_index: 0, len: 3 },
            DiffOp::Insert { old_index: 3, new_index: 3, new_len: 1 },
            DiffOp::Equal { old_index: 3, new_index: 4, len: 3 },
        ]
    );
}

#[test]
fn length_change_differs() {
    // the same instructions, one with a 32-bit displacement instead of an 8-bit one
    let f1 = Function::new(0x1000, framed(&[0x8b, 0x45, 0x08]));
    let f2 = Function::new(0x1000, framed(&[0x8b, 0x85, 0x08, 0x00, 0x00, 0x00]));
    assert!(matches!(compare_functions(4, &f1, &f2), Ok(CompareResult::Differs(_))));
}

#[test]
fn diff_ops_cover_both_streams() {
    let f1 = Function::new(0x1000, framed(&[0x89, 0xd8, 0x90, 0x90, 0x89, 0xd9]));
    let f2 = Function::new(0x1000, framed(&[0x89, 0xc8, 0x90, 0x89, 0xd9, 0xc3]));
    match compare_functions(4, &f1, &f2).unwrap() {
        CompareResult::Differs(info) => {
            let mut old_total = 0;
            let mut new_total = 0;
            for op in &info.diff_ops {
                match *op {
                    DiffOp::Equal { len, .. } => {
                        old_total += len;
                        new_total += len;
                    }
                    DiffOp::Delete { old_len, .. } => old_total += old_len,
                    DiffOp::Insert { new_len, .. } => new_total += new_len,
                    DiffOp::Replace { old_len, new_len, .. } => {
                        old_total += old_len;
                        new_total += new_len;
                    }
                }
            }
            assert_eq!(old_total, info.instructions.0.len());
            assert_eq!(new_total, info.instructions.1.len());
        }
        CompareResult::Same => panic!("expected a difference"),
    }
}

#[test]
fn changes_are_sorted_by_primary_address() {
    let p1 = program(4, vec![("b", 0x3000, framed(&[0x89, 0xd8])), ("a", 0x1000, framed(&[0x89, 0xd8])), ("c", 0x2000, framed(&[0x90]))]);
    let p2 = program(4, vec![("a", 0x1100, framed(&[0x89, 0xc8])), ("b", 0x3100, framed(&[0x89, 0xc8])), ("c", 0x2100, framed(&[0x90]))]);
    let changes = compare_programs(&p1, &p2).unwrap();
    let names: Vec<&str> = changes.iter().map(|c| c.name()).collect();
    assert_eq!(names, vec!["a", "b"]);
    assert_eq!(changes[0].address1(), 0x1000);
    assert_eq!(changes[0].address2(), 0x1100);
    assert_eq!(changes[1].address1(), 0x3000);
}

#[test]
fn comparison_is_deterministic() {
    let p1 = program(4, vec![("b", 0x3000, framed(&[0x89, 0xd8])), ("a", 0x1000, framed(&[0x89, 0xd8, 0x90]))]);
    let p2 = program(4, vec![("a", 0x1100, framed(&[0x89, 0xc8])), ("b", 0x3100, framed(&[0x89, 0xc8]))]);
    let first = compare_programs(&p1, &p2).unwrap();
    let second = compare_programs(&p1, &p2).unwrap();
    assert_eq!(first.len(), second.len());
    for (x, y) in first.iter().zip(second.iter()) {
        assert_eq!(x.name(), y.name());
        assert_eq!(x.address1(), y.address1());
        assert_eq!(x.address2(), y.address2());
        assert_eq!(x.diff_ops(), y.diff_ops());
        let ips = |s: &[tfbindiff::instruction_wrapper::InstructionWrapper]| s.iter().map(|w| w.ip).collect::<Vec<u64>>();
        assert_eq!(ips(x.instructions().0), ips(y.instructions().0));
        assert_eq!(ips(x.instructions().1), ips(y.instructions().1));
    }
}

#[test]
fn pointer_size_mismatch() {
    let p1 = program(4, vec![("a", 0x1000, framed(&[0x90]))]);
    let p2 = program(8, vec![("a", 0x1000, framed(&[0x90]))]);
    assert_eq!(compare_programs(&p1, &p2).err(), Some(CompareError::PointerSizeMismatch));
}

#[test]
fn lowest_failing_address_is_reported() {
    let bad = framed(&[0x29, 0xc4]);
    let worse = framed(&[0x29, 0xc4, 0x90]);
    let p1 = program(4, vec![("b", 0x3000, bad.clone()), ("a", 0x2000, bad.clone())]);
    let p2 = program(4, vec![("a", 0x2000, worse.clone()), ("b", 0x3000, worse)]);
    assert_eq!(compare_programs(&p1, &p2).err(), Some(CompareError::UnhandledInstructionShape(0x2000)));
}

#[test]
fn static_initializers_are_matched_by_file() {
    let p1 = program(4, vec![("_GLOBAL__sub_I_foo.stdout.rel_tf_osx_builder.A.ii", 0x1000, framed(&[0x89, 0xd8]))]);
    let p2 = program(4, vec![("_GLOBAL__sub_I_foo.stdout.rel_tf_osx_builder.B.ii", 0x1000, framed(&[0x89, 0xc8]))]);
    let changes = compare_programs(&p1, &p2).unwrap();
    assert_eq!(changes.len(), 1);
    assert_eq!(changes[0].name(), "_GLOBAL__sub_I_foo.stdout.rel_tf_osx_builder.A.ii");
}

#[test]
fn layout_of_a_change() {
    let f1 = Function::new(0x1000, framed(&[0x89, 0xd8]));
    let f2 = Function::new(0x1000, framed(&[0x89, 0xc8, 0x90]));
    match compare_functions(4, &f1, &f2).unwrap() {
        CompareResult::Differs(info) => {
            let cells = tfbindiff::split_diff::build(&info.instructions.0, &info.instructions.1, &info.diff_ops);
            let deleted = cells.iter().filter(|c| matches!(c.0, tfbindiff::split_diff::DiffCell::Delete(_))).count();
            let inserted = cells.iter().filter(|c| matches!(c.1, tfbindiff::split_diff::DiffCell::Insert(_))).count();
            assert_eq!(deleted, 1);
            assert_eq!(inserted, 2);
        }
        CompareResult::Same => panic!("expected a difference"),
    }
}
