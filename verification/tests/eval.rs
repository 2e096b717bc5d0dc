use risp::{to_ast, ErrorKind, Interpreter, Value};

fn eval_one(interp: &mut Interpreter, src: &str) -> Result<Value, risp::RuntimeError> {
    let nodes = to_ast(&format!("{}\n", src)).expect("program should parse");
    assert_eq!(nodes.len(), 1, "expected one top-level expression");
    interp.eval(&nodes[0])
}

fn eval_value(src: &str) -> Value {
    let mut interp = Interpreter::new();
    eval_one(&mut interp, src).expect("evaluation should succeed")
}

fn eval_error(src: &str) -> risp::RuntimeError {
    let mut interp = Interpreter::new();
    eval_one(&mut interp, src).expect_err("evaluation should fail")
}

#[test]
fn arithmetic_folds_left() {
    assert!(matches!(eval_value("(+ 1 2 3 4)"), Value::Int(10)));
    assert!(matches!(eval_value("(- 10 1 2)"), Value::Int(7)));
    assert!(matches!(eval_value("(* 2 3 4)"), Value::Int(24)));
    assert!(matches!(eval_value("(/ 100 5 2)"), Value::Int(10)));
}

#[test]
fn integer_division_truncates() {
    assert!(matches!(eval_value("(/ 7 2)"), Value::Int(3)));
    assert!(matches!(eval_value("(/ -7 2)"), Value::Int(-3)));
    assert!(matches!(eval_value("(/ 7 -2)"), Value::Int(-3)));
}

#[test]
fn division_by_zero_is_value_error() {
    let e = eval_error("(/ 1 0)");
    assert!(matches!(e.kind, ErrorKind::ValueError));
}

#[test]
fn bool_coerces_with_int() {
    assert!(matches!(eval_value("(+ true 1)"), Value::Int(2)));
    assert!(matches!(eval_value("(+ false false)"), Value::Int(0)));
    assert!(matches!(eval_value("(* true 7)"), Value::Int(7)));
}

#[test]
fn int_coerces_with_float() {
    let expected = (3.5f64).to_bits();
    assert!(matches!(eval_value("(+ 1.5 2)"), Value::Float(b) if b == expected));
    let expected = (6.0f64).to_bits();
    assert!(matches!(eval_value("(* 2.0 3)"), Value::Float(b) if b == expected));
    let expected = (2.0f64).to_bits();
    assert!(matches!(eval_value("(+ true 1.0)"), Value::Float(b) if b == expected));
}

#[test]
fn float_division_by_zero_is_infinite() {
    assert!(matches!(eval_value("(/ 1.0 0.0)"), Value::Float(b) if b == f64::INFINITY.to_bits()));
}

#[test]
fn relational_chaining() {
    assert!(matches!(eval_value("(< 1 2 3)"), Value::Bool(true)));
    assert!(matches!(eval_value("(< 1 3 2)"), Value::Bool(false)));
    assert!(matches!(eval_value("(> 3 2 1)"), Value::Bool(true)));
    assert!(matches!(eval_value("(= 2 2 2)"), Value::Bool(true)));
    assert!(matches!(eval_value("(= 2 2 3)"), Value::Bool(false)));
}

#[test]
fn relational_mixes_types_two_sided() {
    assert!(matches!(eval_value("(< 1 1.5)"), Value::Bool(true)));
    assert!(matches!(eval_value("(> 2 true)"), Value::Bool(true)));
    assert!(matches!(eval_value("(= 1 1.0)"), Value::Bool(true)));
    assert!(matches!(eval_value("(= true 1)"), Value::Bool(true)));
}

#[test]
fn relational_with_few_arguments_is_true() {
    assert!(matches!(eval_value("(<)"), Value::Bool(true)));
    assert!(matches!(eval_value("(< 5)"), Value::Bool(true)));
}

#[test]
fn arithmetic_with_no_arguments_is_type_error() {
    let e = eval_error("(+)");
    assert!(matches!(e.kind, ErrorKind::TypeError));
}

#[test]
fn string_repetition_and_concatenation() {
    assert!(matches!(eval_value("(* \"ab\" 3)"), Value::Str(s) if s == "ababab"));
    assert!(matches!(eval_value("(* 2 \"xy\")"), Value::Str(s) if s == "xyxy"));
    assert!(matches!(eval_value("(+ \"foo\" \"bar\")"), Value::Str(s) if s == "foobar"));
    assert!(matches!(eval_value("(= \"a\" \"a\")"), Value::Bool(true)));
    assert!(matches!(eval_value("(= \"a\" \"b\")"), Value::Bool(false)));
}

#[test]
fn list_concatenation_and_repetition() {
    let v = eval_value("(+ (list 1 2) (list 3))");
    match v {
        Value::List(items) => {
            assert_eq!(items.len(), 3);
            assert!(matches!(items[0], Value::Int(1)));
            assert!(matches!(items[1], Value::Int(2)));
            assert!(matches!(items[2], Value::Int(3)));
        },
        _ => panic!("expected a list"),
    }
    let v = eval_value("(* (list 1 2) 2)");
    match v {
        Value::List(items) => {
            assert_eq!(items.len(), 4);
            assert!(matches!(items[3], Value::Int(2)));
        },
        _ => panic!("expected a list"),
    }
}

#[test]
fn list_equality_is_element_wise() {
    assert!(matches!(eval_value("(= (list 1 2) (list 1 2))"), Value::Bool(true)));
    assert!(matches!(eval_value("(= (list 1 2) (list 1))"), Value::Bool(false)));
    assert!(matches!(eval_value("(= (list 1 2) (list 1 3))"), Value::Bool(false)));
}

#[test]
fn mismatched_operator_types_are_type_errors() {
    let e = eval_error("(+ \"a\" 1)");
    assert!(matches!(e.kind, ErrorKind::TypeError));
    let e = eval_error("(- \"a\" \"b\")");
    assert!(matches!(e.kind, ErrorKind::TypeError));
}

#[test]
fn set_binds_in_the_same_interpreter() {
    let mut interp = Interpreter::new();
    let v = eval_one(&mut interp, "(set x 5)").expect("set should succeed");
    assert!(matches!(v, Value::Int(5)));
    let v = eval_one(&mut interp, "x").expect("x should now be bound");
    assert!(matches!(v, Value::Int(5)));
}

#[test]
fn fresh_interpreter_does_not_see_bindings() {
    let mut first = Interpreter::new();
    eval_one(&mut first, "(set x 5)").expect("set should succeed");
    let mut second = Interpreter::new();
    let e = eval_one(&mut second, "x").expect_err("x must be unbound");
    assert!(matches!(e.kind, ErrorKind::NameError));
}

#[test]
fn if_takes_the_right_branch() {
    assert!(matches!(eval_value("(if (< 1 2) 10 20)"), Value::Int(10)));
    assert!(matches!(eval_value("(if (< 2 1) 10 20)"), Value::Int(20)));
    assert!(matches!(eval_value("(if false 10)"), Value::Null));
}

#[test]
fn if_with_non_bool_condition_is_type_error() {
    let e = eval_error("(if 1 2 3)");
    assert!(matches!(e.kind, ErrorKind::TypeError));
}

#[test]
fn while_that_never_runs_yields_null_without_running_its_body() {
    let mut interp = Interpreter::new();
    let v = eval_one(&mut interp, "(while false (set y 1))").expect("while should succeed");
    assert!(matches!(v, Value::Null));
    let e = eval_one(&mut interp, "y").expect_err("the body must not have run");
    assert!(matches!(e.kind, ErrorKind::NameError));
}

#[test]
fn while_counts_down() {
    let mut interp = Interpreter::new();
    eval_one(&mut interp, "(set n 3)").unwrap();
    eval_one(&mut interp, "(set total 0)").unwrap();
    eval_one(
        &mut interp,
        "(while (> n 0) (block (set total (+ total n)) (set n (- n 1))))",
    )
    .unwrap();
    let v = eval_one(&mut interp, "total").unwrap();
    assert!(matches!(v, Value::Int(6)));
}

#[test]
fn block_returns_the_last_value() {
    assert!(matches!(eval_value("(block 1 2 3)"), Value::Int(3)));
    assert!(matches!(eval_value("(block)"), Value::Null));
}

#[test]
fn unbound_name_is_name_error() {
    let e = eval_error("nope");
    assert!(matches!(e.kind, ErrorKind::NameError));
}

#[test]
fn calling_a_non_callable_is_type_error() {
    let e = eval_error("(1 2)");
    assert!(matches!(e.kind, ErrorKind::TypeError));
}

#[test]
fn set_with_a_non_name_is_value_error() {
    let e = eval_error("(set 5 1)");
    assert!(matches!(e.kind, ErrorKind::ValueError));
    let e = eval_error("(set x)");
    assert!(matches!(e.kind, ErrorKind::ValueError));
}

#[test]
fn empty_expression_is_value_error() {
    let e = eval_error("()");
    assert!(matches!(e.kind, ErrorKind::ValueError));
}

#[test]
fn pure_arithmetic_evaluates_identically_twice() {
    let mut interp = Interpreter::new();
    let nodes = to_ast("(+ (* 2 3) (- 10 4))\n").unwrap();
    let first = interp.eval(&nodes[0]).unwrap();
    let second = interp.eval(&nodes[0]).unwrap();
    assert!(matches!(first, Value::Int(12)));
    assert!(matches!(second, Value::Int(12)));
}

#[test]
fn quoted_name_evaluates_to_symbol() {
    assert!(matches!(eval_value("'abc"), Value::Symbol(s) if s == "abc"));
}

#[test]
fn quoted_list_evaluates_to_list() {
    let v = eval_value("'(1 2)");
    match v {
        Value::List(items) => {
            assert_eq!(items.len(), 2);
            assert!(matches!(items[0], Value::Int(1)));
            assert!(matches!(items[1], Value::Int(2)));
        },
        _ => panic!("expected a list"),
    }
}

#[test]
fn println_writes_to_the_output_buffer() {
    let mut interp = Interpreter::new();
    let v = eval_one(&mut interp, "(println 1 2)").expect("println should succeed");
    assert!(matches!(v, Value::Null));
    assert_eq!(interp.take_output(), "1 2\n");
    assert_eq!(interp.take_output(), "");
}

#[test]
fn print_omits_the_newline() {
    let mut interp = Interpreter::new();
    eval_one(&mut interp, "(print \"hi\")").unwrap();
    assert_eq!(interp.take_output(), "hi");
}

#[test]
fn input_takes_a_queued_line() {
    let mut interp = Interpreter::new();
    interp.queue_input(String::from("hello"));
    let v = eval_one(&mut interp, "(input \"? \")").expect("input should succeed");
    assert!(matches!(v, Value::Str(s) if s == "hello"));
    assert_eq!(interp.take_output(), "? ");
    let v = eval_one(&mut interp, "(input)").expect("input should succeed");
    assert!(matches!(v, Value::Str(s) if s.is_empty()));
}

#[test]
fn integer_arithmetic_wraps_around() {
    let mut interp = Interpreter::new();
    eval_one(&mut interp, "(set big 9223372036854775807)").unwrap();
    let v = eval_one(&mut interp, "(+ big 1)").unwrap();
    assert!(matches!(v, Value::Int(i) if i == i64::MIN));
}
