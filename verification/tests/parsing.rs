use risp::{to_ast, AstNode, Op};

#[test]
fn parses_signed_numbers_as_single_atoms() {
    let nodes = to_ast("-5 +5 5\n").expect("should parse");
    assert_eq!(nodes.len(), 3);
    assert!(matches!(nodes[0], AstNode::Int(-5)));
    assert!(matches!(nodes[1], AstNode::Int(5)));
    assert!(matches!(nodes[2], AstNode::Int(5)));
}

#[test]
fn parses_floats_with_and_without_trailing_digits() {
    let nodes = to_ast("1.5 -2.25 3.\n").expect("should parse");
    assert!(matches!(nodes[0], AstNode::Float(b) if b == (1.5f64).to_bits()));
    assert!(matches!(nodes[1], AstNode::Float(b) if b == (-2.25f64).to_bits()));
    assert!(matches!(nodes[2], AstNode::Float(b) if b == (3.0f64).to_bits()));
}

#[test]
fn parses_names_strings_and_operators() {
    let nodes = to_ast("abc_1 \"hi there\" + <\n").expect("should parse");
    assert!(matches!(&nodes[0], AstNode::Name(s) if s == "abc_1"));
    assert!(matches!(&nodes[1], AstNode::Str(s) if s == "hi there"));
    assert!(matches!(nodes[2], AstNode::Operator(Op::Plus)));
    assert!(matches!(nodes[3], AstNode::Operator(Op::Less)));
}

#[test]
fn parses_nested_expressions() {
    let nodes = to_ast("(+ 1 (* 2 3))").expect("should parse");
    assert_eq!(nodes.len(), 1);
    match &nodes[0] {
        AstNode::Expr(items) => {
            assert_eq!(items.len(), 3);
            assert!(matches!(items[0], AstNode::Operator(Op::Plus)));
            assert!(matches!(items[1], AstNode::Int(1)));
            assert!(matches!(&items[2], AstNode::Expr(inner) if inner.len() == 3));
        },
        _ => panic!("expected a compound expression"),
    }
}

#[test]
fn quote_wraps_names_and_expressions() {
    let nodes = to_ast("'x '(1 2)\n").expect("should parse");
    assert!(matches!(&nodes[0], AstNode::Symbol(s) if s == "x"));
    assert!(matches!(&nodes[1], AstNode::List(items) if items.len() == 2));
}

#[test]
fn quoting_a_number_is_a_syntax_error() {
    assert!(to_ast("'5").is_err());
}

#[test]
fn unterminated_string_is_a_syntax_error() {
    assert!(to_ast("\"abc").is_err());
}

#[test]
fn unexpected_character_is_a_syntax_error() {
    assert!(to_ast("#").is_err());
}

#[test]
fn unclosed_parenthesis_is_a_syntax_error() {
    assert!(to_ast("(+ 1 2").is_err());
}

#[test]
fn dangling_close_paren_in_lookahead_is_dropped() {
    let nodes = to_ast("1)").expect("should parse");
    assert_eq!(nodes.len(), 1);
    assert!(matches!(nodes[0], AstNode::Int(1)));
}

#[test]
fn integer_literal_out_of_range_is_a_syntax_error() {
    assert!(to_ast("99999999999999999999\n").is_err());
    let nodes = to_ast("9223372036854775807 -9223372036854775808\n").expect("should parse");
    assert!(matches!(nodes[0], AstNode::Int(i64::MAX)));
    assert!(matches!(nodes[1], AstNode::Int(i64::MIN)));
}

#[test]
fn final_atom_stays_in_the_lookahead_without_trailing_whitespace() {
    // Top-level parsing runs while the lexer has input left; a bare final
    // atom with nothing after it is already in the lookahead when the
    // lexer reaches the end, so it is not returned.  A line read from a
    // terminal always ends in a newline, which avoids this.
    let nodes = to_ast("5").expect("should parse");
    assert!(nodes.is_empty());
    let nodes = to_ast("5\n").expect("should parse");
    assert_eq!(nodes.len(), 1);
}

#[test]
fn whitespace_only_input_parses_to_nothing() {
    let nodes = to_ast("   \n\t ").expect("should parse");
    assert!(nodes.is_empty());
    let nodes = to_ast("").expect("should parse");
    assert!(nodes.is_empty());
}

#[test]
fn serialization_round_trips_through_the_parser() {
    let source = "(set x 5) (+ 1 (* 2 3)) '(1 \"two\" three) (if (< x 9) 'yes 'no)";
    let first = to_ast(source).expect("should parse");
    let rendered: Vec<String> = first.iter().map(|n| n.to_source()).collect();
    let again = to_ast(&rendered.join(" ")).expect("rendering should re-parse");
    assert_eq!(first.len(), again.len());
    let rendered_again: Vec<String> = again.iter().map(|n| n.to_source()).collect();
    assert_eq!(rendered, rendered_again);
}

#[test]
fn to_source_renders_each_form() {
    let nodes = to_ast("(+ -1 \"s\") 'n '(2 3.5)").expect("should parse");
    assert_eq!(nodes[0].to_source(), "(+ -1 \"s\")");
    assert_eq!(nodes[1].to_source(), "'n");
    assert_eq!(nodes[2].to_source(), "'(2 3.5)");
}
