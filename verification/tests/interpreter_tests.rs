use plum::error::{stringify_expected, Error};
use plum::interpreter::{interpret, interpret_full, VarStore};
use plum::number::Number;
use plum::value::{Value, ValueType};

fn num(n: i64) -> Value {
    Value::Num(Number { num: n, den: 1 })
}

#[test]
fn interpret_assign_chain() {
    let interpreted = interpret("these = are = all = 12;").unwrap();
    let value = num(12);
    assert_eq!(interpreted.get(&"these".to_owned()).unwrap(), &value);
    assert_eq!(interpreted.get(&"are".to_owned()).unwrap(), &value);
    assert_eq!(interpreted.get(&"all".to_owned()).unwrap(), &value)
}

#[test]
fn interpret_chain_is_one_statement() {
    // The chained assignment resolves as a single statement with three
    // targets, each carrying the same (empty) reference list.
    let store = interpret_full("these = are = all = 12;").unwrap();
    assert_eq!(store.deps.len(), 3);
    for (_, ds) in &store.deps {
        assert!(ds.is_empty());
    }
}

#[test]
fn interpret_out_of_order_definitions() {
    let interpreted = interpret("a = b + 1; b = 2;").unwrap();
    assert_eq!(interpreted.get(&"a".to_owned()).unwrap(), &num(3));
    assert_eq!(interpreted.get(&"b".to_owned()).unwrap(), &num(2));
}

#[test]
fn interpret_cycle_is_recursion_error() {
    let errs = interpret("a = b; b = a;").unwrap_err();
    assert_eq!(errs.len(), 1);
    match &errs[0] {
        Error::RecursionError { chain } => {
            let mut names: Vec<String> = chain.iter().map(|c| c.name.clone()).collect();
            names.sort();
            assert_eq!(names, vec!["a".to_owned(), "b".to_owned()]);
        },
        _ => panic!("expected a recursion error"),
    }
}

#[test]
fn interpret_undefined_reference() {
    let errs = interpret("x = y + 1;").unwrap_err();
    assert_eq!(errs.len(), 1);
    match &errs[0] {
        Error::ReferenceError { name, .. } => {
            assert_eq!(name, "y");
        },
        _ => panic!("expected a reference error"),
    }
    // In particular no spurious type error accompanies it.
    for e in &errs {
        assert!(!matches!(e, Error::TypeError { .. }));
    }
}

#[test]
fn interpret_reassignment_rejected() {
    let errs = interpret("a = 1; a = 2;").unwrap_err();
    match &errs[0] {
        Error::ReassignError { name, old_span, new_span } => {
            assert_eq!(name, "a");
            assert_eq!(old_span.start, 0);
            assert_eq!(old_span.end, 6);
            assert_eq!(new_span.start, 7);
            assert_eq!(new_span.end, 13);
        },
        _ => panic!("expected a reassignment error"),
    }
}

#[test]
fn interpret_reassignment_rejected_anywhere() {
    // Other definitions in between do not mask the reassignment.
    let errs = interpret("a = 1; b = a + 1; a = 3;").unwrap_err();
    assert!(errs.iter().any(|e| matches!(e, Error::ReassignError { .. })));
}

#[test]
fn interpret_is_idempotent() {
    // Re-running on the same source produces identical output.
    let first = interpret("x = 2; y = x * x; z = 'v' * y;").unwrap();
    let second = interpret("x = 2; y = x * x; z = 'v' * y;").unwrap();
    for name in ["x", "y", "z"] {
        assert_eq!(
            first.get(&name.to_owned()).unwrap(),
            second.get(&name.to_owned()).unwrap()
        );
    }
}

#[test]
fn interpret_lex_errors_halt_pipeline() {
    let errs = interpret("a = @;").unwrap_err();
    assert!(matches!(errs[0], Error::SyntaxError { .. }));
}

#[test]
fn interpret_parse_errors_halt_pipeline() {
    let errs = interpret("a = ;").unwrap_err();
    assert!(matches!(errs[0], Error::ParsingError { .. }));
}

#[test]
fn interpret_conditional_definition() {
    let interpreted = interpret("a = if b > 1 { 'big' } else { 'small' }; b = 2;").unwrap();
    assert_eq!(
        interpreted.get(&"a".to_owned()).unwrap(),
        &Value::String("big".to_owned())
    );
}

#[test]
fn stringify_expected_cuts_tail() {
    let joined = stringify_expected(&vec![ValueType::Num, ValueType::String]);
    assert_eq!(joined, "Num, Stri".to_owned());
    let single = stringify_expected(&vec![ValueType::Num]);
    assert_eq!(single, "N".to_owned());
}

#[test]
fn value_type_names() {
    assert_eq!(ValueType::Num.name(), "Num".to_owned());
    assert_eq!(ValueType::Error.name(), "[ERROR]".to_owned());
}

#[test]
fn var_store_new_is_empty() {
    let store = VarStore::new();
    assert_eq!(store.values.len(), 0);
    assert!(store.deps.is_empty());
}

#[test]
fn get_type_reports_variants() {
    assert_eq!(num(3).get_type(), ValueType::Num);
    assert_eq!(Value::Null.get_type(), ValueType::Null);
    assert_eq!(Value::Range(0, 2).get_type(), ValueType::Range);
}
