use std::collections::HashMap;
use tfbindiff::matcher::{static_init_file_of, FunctionMatcher, MatchResult};
use tfbindiff::program::{Function, Program};

fn program(names: &[(&str, u64)]) -> Program {
    let mut symbol_map = HashMap::new();
    let mut functions = Vec::new();
    for (name, address) in names {
        symbol_map.insert(*address, name.to_string());
        functions.push((name.to_string(), Function::new(*address, vec![0x90])));
    }
    Program { pointer_size: 4, functions, symbol_map }
}

fn file(name: &str) -> Option<String> {
    static_init_file_of(name).map(|v| v.into_iter().collect())
}

#[test]
fn static_initializer_file_is_extracted() {
    assert_eq!(file("_GLOBAL__sub_I_foo.stdout.rel_tf_osx_builder.A.ii"), Some("foo".to_string()));
    assert_eq!(file("__GLOBAL__sub_I_bar.cpp.stdout.rel_tf_osx_builder.x.y.ii"), Some("bar.cpp".to_string()));
    // the capture is greedy
    assert_eq!(
        file("_GLOBAL__sub_I_a.stdout.rel_tf_osx_builder.b.stdout.rel_tf_osx_builder.c.ii"),
        Some("a.stdout.rel_tf_osx_builder.b".to_string())
    );
    assert_eq!(file("_GLOBAL__sub_I_.stdout.rel_tf_osx_builder..ii"), Some(String::new()));
}

#[test]
fn other_names_have_no_file() {
    assert_eq!(file("main"), None);
    assert_eq!(file("_GLOBAL__sub_I_foo.stdout.rel_tf_osx_builder.A.i"), None);
    assert_eq!(file("_GLOBAL__sub_I_foo.rel_tf_osx_builder.A.ii"), None);
    assert_eq!(file("___GLOBAL__sub_I_foo.stdout.rel_tf_osx_builder.A.ii"), None);
    assert_eq!(file("_GLOBAL__sub_I_fo\no.stdout.rel_tf_osx_builder.A.ii"), None);
    assert_eq!(file(""), None);
}

#[test]
fn names_match_directly() {
    let p1 = program(&[("f", 0x10)]);
    let p2 = program(&[("g", 0x20), ("f", 0x30)]);
    let m = FunctionMatcher::new(&p1, &p2);
    assert_eq!(m.match_name(&"f".to_string()).map(|f| f.address()), Some(0x30));
    assert!(m.match_name(&"h".to_string()).is_none());
}

#[test]
fn static_initializer_rename_is_matched() {
    let p1 = program(&[("_GLOBAL__sub_I_foo.stdout.rel_tf_osx_builder.A.ii", 0x10)]);
    let p2 = program(&[("_GLOBAL__sub_I_foo.stdout.rel_tf_osx_builder.B.ii", 0x20)]);
    let mut m = FunctionMatcher::new(&p1, &p2);
    match m.next_match() {
        MatchResult::Matched((f1, f2)) => {
            assert_eq!(f1.address(), 0x10);
            assert_eq!(f2.address(), 0x20);
        }
        _ => panic!("expected a match"),
    }
    assert!(matches!(m.next_match(), MatchResult::Finished));
}

#[test]
fn ambiguous_static_initializers_are_not_matched() {
    let p1 = program(&[("_GLOBAL__sub_I_foo.stdout.rel_tf_osx_builder.A.ii", 0x10)]);
    let p2 = program(&[
        ("_GLOBAL__sub_I_foo.stdout.rel_tf_osx_builder.B.ii", 0x20),
        ("_GLOBAL__sub_I_foo.stdout.rel_tf_osx_builder.C.ii", 0x30),
    ]);
    let mut m = FunctionMatcher::new(&p1, &p2);
    assert!(matches!(m.next_match(), MatchResult::Unmatched));
    let (first, second) = m.get_unmatched();
    assert_eq!(first.len(), 1);
    assert_eq!(second.len(), 2);
}

#[test]
fn unmatched_functions_are_reported() {
    let p1 = program(&[("a", 0x10), ("b", 0x20)]);
    let p2 = program(&[("b", 0x30), ("c", 0x40)]);
    let mut m = FunctionMatcher::new(&p1, &p2);
    assert!(matches!(m.next_match(), MatchResult::Unmatched));
    assert!(matches!(m.next_match(), MatchResult::Matched(_)));
    assert!(matches!(m.next_match(), MatchResult::Finished));
    let (first, second) = m.get_unmatched();
    assert_eq!(first.iter().map(|e| e.0.as_str()).collect::<Vec<_>>(), vec!["a"]);
    assert_eq!(second.iter().map(|e| e.0.as_str()).collect::<Vec<_>>(), vec!["c"]);
}
