use risp::{to_ast, Interpreter, Value};

fn eval_value(src: &str) -> Value {
    let mut interp = Interpreter::new();
    let nodes = to_ast(&format!("{}\n", src)).expect("program should parse");
    interp.eval(&nodes[0]).expect("evaluation should succeed")
}

#[test]
fn repr_of_numbers_and_booleans() {
    assert_eq!(eval_value("42").repr(), "42");
    assert_eq!(eval_value("-42").repr(), "-42");
    assert_eq!(eval_value("0").repr(), "0");
    assert_eq!(eval_value("true").repr(), "true");
    assert_eq!(eval_value("false").repr(), "false");
}

#[test]
fn repr_of_floats_round_trips() {
    let rendered = eval_value("2.5").repr();
    let nodes = to_ast(&format!("{}\n", rendered)).expect("a float rendering should re-parse");
    assert!(matches!(nodes[0], risp::AstNode::Float(b) if b == (2.5f64).to_bits()));
}

#[test]
fn repr_quotes_strings_and_display_does_not() {
    let v = eval_value("\"hi\"");
    assert_eq!(v.repr(), "\"hi\"");
    assert_eq!(v.display(), "hi");
}

#[test]
fn repr_escapes_special_characters() {
    let v = Value::Str(String::from("a\\b\n"));
    assert_eq!(v.repr(), "\"a\\\\b\\n\"");
    assert_eq!(v.display(), "a\\b\n");
}

#[test]
fn repr_of_lists_brackets_elements() {
    assert_eq!(eval_value("(list 1 2 3)").repr(), "[1, 2, 3]");
    assert_eq!(eval_value("(list)").repr(), "[]");
    assert_eq!(eval_value("(list \"a\")").repr(), "[\"a\"]");
    assert_eq!(eval_value("(list \"a\")").display(), "[a]");
}

#[test]
fn repr_of_callables_and_null() {
    assert_eq!(eval_value("print").repr(), "<Rust Function>");
    assert_eq!(eval_value("if").repr(), "<Rust Macro>");
    assert_eq!(eval_value("+").repr(), "+");
    assert_eq!(eval_value("(if false 1)").repr(), "null");
    assert_eq!(eval_value("'sym").repr(), "<Symbol sym>");
}

#[test]
fn type_labels_name_the_types() {
    assert_eq!(eval_value("1").type_label(), "int");
    assert_eq!(eval_value("1.5").type_label(), "float");
    assert_eq!(eval_value("true").type_label(), "bool");
    assert_eq!(eval_value("\"s\"").type_label(), "str");
    assert_eq!(eval_value("(list)").type_label(), "list");
    assert_eq!(eval_value("print").type_label(), "rustfn");
    assert_eq!(eval_value("while").type_label(), "rustmacro");
    assert_eq!(eval_value("<").type_label(), "operator");
}

#[test]
fn error_messages_name_the_operator_and_types() {
    let mut interp = Interpreter::new();
    let nodes = to_ast("(- \"a\" true)").unwrap();
    let e = interp.eval(&nodes[0]).expect_err("should fail");
    assert!(e.msg.contains('-'));
    assert!(e.msg.contains("str"));
    assert!(e.msg.contains("bool"));
}

#[test]
fn values_clone_deeply() {
    let v = eval_value("(list 1 (list 2 \"x\"))");
    let w = v.clone();
    assert_eq!(v.repr(), w.repr());
}
