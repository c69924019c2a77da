use jp_lox::numbers::Decimal;
use jp_lox::parser::{parse_expression, AstNode, ParseErrorKind};
use jp_lox::tokenizer::Tokenizer;
use jp_lox::values::Value;

fn tokens_of(src: &str) -> Vec<jp_lox::tokenizer::Token> {
    let mut t = Tokenizer::new(src);
    let mut out = Vec::new();
    while let Some(tok) = t.next() {
        out.push(tok);
    }
    out
}

fn callee_name(n: &AstNode) -> String {
    match n {
        AstNode::Application(_, f, _) => match f.as_ref() {
            AstNode::Symbol(_, name) => name.clone(),
            other => panic!("callee is not a symbol: {:?}", other),
        },
        other => panic!("not an application: {:?}", other),
    }
}

#[test]
fn factor_binds_tighter_than_term() {
    let toks = tokens_of("1 + 2 * 3");
    let (ast, next) = parse_expression(&toks, 0).unwrap();
    assert_eq!(next, 5);
    assert_eq!(callee_name(&ast), "+");
    match &ast {
        AstNode::Application(_, _, args) => {
            assert!(matches!(&args[0], AstNode::Literal(_, Value::Number(_))));
            assert_eq!(callee_name(&args[1]), "*");
        }
        other => panic!("not an application: {:?}", other),
    }
}

#[test]
fn equality_after_comparison() {
    let toks = tokens_of("1 < 2 == true");
    let (ast, _) = parse_expression(&toks, 0).unwrap();
    assert_eq!(callee_name(&ast), "==");
    match &ast {
        AstNode::Application(_, _, args) => assert_eq!(callee_name(&args[0]), "<"),
        other => panic!("not an application: {:?}", other),
    }
}

#[test]
fn unary_desugars_to_application() {
    let toks = tokens_of("-5");
    let (ast, _) = parse_expression(&toks, 0).unwrap();
    assert_eq!(callee_name(&ast), "-");
    match &ast {
        AstNode::Application(_, _, args) => {
            assert_eq!(args.len(), 1);
            match &args[0] {
                AstNode::Literal(_, Value::Number(d)) => {
                    assert_eq!(*d, Decimal { mantissa: 5, scale: 0 })
                }
                other => panic!("not a number literal: {:?}", other),
            }
        }
        other => panic!("not an application: {:?}", other),
    }
}

#[test]
fn grouping_produces_group_node() {
    let toks = tokens_of("(1)");
    let (ast, next) = parse_expression(&toks, 0).unwrap();
    assert_eq!(next, 3);
    assert!(matches!(ast, AstNode::Group(_, _)));
}

#[test]
fn assignment_is_right_associative() {
    let toks = tokens_of("a = b = 1");
    let (ast, _) = parse_expression(&toks, 0).unwrap();
    match &ast {
        AstNode::Assignment(_, name, rhs) => {
            assert_eq!(name, "a");
            assert!(matches!(rhs.as_ref(), AstNode::Assignment(_, _, _)));
        }
        other => panic!("not an assignment: {:?}", other),
    }
}

#[test]
fn invalid_assignment_target_is_fatal() {
    let toks = tokens_of("1 = 2");
    let e = parse_expression(&toks, 0).unwrap_err();
    assert_eq!(e.kind, ParseErrorKind::InvalidAssignmentTarget);
    assert_eq!(e.line, 1);
}

#[test]
fn missing_operand_is_expected_expression() {
    let toks = tokens_of("1 +");
    let e = parse_expression(&toks, 0).unwrap_err();
    assert_eq!(e.kind, ParseErrorKind::ExpectedExpression);
}
