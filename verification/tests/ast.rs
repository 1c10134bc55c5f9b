use tinylisp::ast::AstNode;
use tinylisp::lex::Parse;

fn parse_expect(input: &'static str, expect: AstNode) {
    let (result, _) = AstNode::parse(input).expect("parse error");
    assert_eq!(result, expect);
}

#[test]
fn ast_test_empty() {
    parse_expect("()", AstNode::SExpr(vec![]))
}

#[test]
fn ast_test_number() {
    parse_expect("(1)", AstNode::SExpr(vec![AstNode::Number(1)]))
}

#[test]
fn ast_test_symbol() {
    parse_expect("(test)", AstNode::SExpr(vec![AstNode::Symbol("test")]))
}

#[test]
fn ast_test_number_symbol() {
    parse_expect(
        "(test 1)",
        AstNode::SExpr(vec![AstNode::Symbol("test"), AstNode::Number(1)]),
    )
}

#[test]
fn ast_test_nested() {
    parse_expect(
        "(test (test 1 2) 3)",
        AstNode::SExpr(vec![
            AstNode::Symbol("test"),
            AstNode::SExpr(vec![
                AstNode::Symbol("test"),
                AstNode::Number(1),
                AstNode::Number(2),
            ]),
            AstNode::Number(3),
        ]),
    )
}
