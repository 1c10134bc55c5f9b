use tinylisp::ast::AstNode;
use tinylisp::eval::{builtin_add, builtin_sub, unwrap_number, Eval, EvalError};
use tinylisp::lex::Parse;

fn nil<'a>() -> AstNode<'a> {
    AstNode::SExpr(Vec::new())
}

fn eval_expect(input: &'static str, expect: AstNode) {
    let (result, _) = AstNode::parse(input).expect("parse error");
    let mut eval = Eval::new();
    assert_eq!(eval.eval(&result), Ok(expect), "input: {}", input);
}

#[test]
fn test_add() {
    let tests = vec![
        ("(+ 1 1)", AstNode::Number(2)),
        ("(+ 2 1)", AstNode::Number(3)),
        ("(+ 0)", AstNode::Number(0)),
        ("(+ -1 0)", AstNode::Number(-1)),
        ("(+ 1 -0)", AstNode::Number(1)),
        ("(+ 1 2 3 4)", AstNode::Number(10)),
    ];
    for (expr, result) in tests {
        eval_expect(expr, result);
    }
}

#[test]
fn test_sub() {
    let tests = vec![
        ("(- 1 1)", AstNode::Number(0)),
        ("(- 2 1)", AstNode::Number(1)),
        ("(- 1 2)", AstNode::Number(-1)),
        ("(- 2)", AstNode::Number(-2)),
        ("(- 1 2 3 4)", AstNode::Number(-8)),
    ];
    for (expr, result) in tests {
        eval_expect(expr, result);
    }
}

#[test]
fn test_def() {
    eval_expect("(def! a (+ 1 2))", nil())
}

fn parse(input: &str) -> AstNode {
    let (tree, rest) = AstNode::parse(input).expect("parse error");
    assert_eq!(rest, "");
    tree
}

fn eval_fresh<'a>(input: &str) -> Result<AstNode<'a>, EvalError<'a>> {
    let tree = parse(input);
    Eval::new().eval(&tree)
}

#[test]
fn numbers_and_nil_evaluate_to_themselves() {
    let mut eval = Eval::new();
    assert_eq!(eval.eval(&AstNode::Number(7)), Ok(AstNode::Number(7)));
    assert_eq!(eval.eval(&AstNode::Number(i64::MIN)), Ok(AstNode::Number(i64::MIN)));
    assert_eq!(eval.eval(&nil()), Ok(nil()));
    assert_eq!(eval_fresh("()"), Ok(nil()));
}

#[test]
fn addition_of_no_arguments_is_zero() {
    assert_eq!(eval_fresh("(+)"), Ok(AstNode::Number(0)));
}

#[test]
fn nested_arithmetic() {
    assert_eq!(eval_fresh("(+ 1 (+ 2 3))"), Ok(AstNode::Number(6)));
    assert_eq!(eval_fresh("(+ (+ 1 2) 3 4 (- 2 1))"), Ok(AstNode::Number(11)));
    assert_eq!(eval_fresh("(- (- 10 1) (+ 1 1) (- 3))"), Ok(AstNode::Number(10)));
    assert_eq!(eval_fresh("(- -5)"), Ok(AstNode::Number(5)));
}

#[test]
fn binding_then_lookup() {
    let mut eval = Eval::new();
    let definition = parse("(def! a (+ 1 2))");
    assert_eq!(eval.eval(&definition), Ok(nil()));
    assert_eq!(eval.eval(&AstNode::Symbol("a")), Ok(AstNode::Number(3)));
    let sum = parse("(+ a a 1)");
    assert_eq!(eval.eval(&sum), Ok(AstNode::Number(7)));
}

#[test]
fn a_later_binding_replaces_an_earlier_one() {
    let mut eval = Eval::new();
    assert_eq!(eval.eval(&parse("(def! a 1)")), Ok(nil()));
    assert_eq!(eval.eval(&parse("(def! a (+ a 1))")), Ok(nil()));
    assert_eq!(eval.eval(&AstNode::Symbol("a")), Ok(AstNode::Number(2)));
}

#[test]
fn a_symbol_may_be_bound_to_nil() {
    let mut eval = Eval::new();
    assert_eq!(eval.eval(&parse("(def! n ())")), Ok(nil()));
    assert_eq!(eval.eval(&AstNode::Symbol("n")), Ok(nil()));
    assert_eq!(eval.eval(&parse("(def! m (def! k 4))")), Ok(nil()));
    assert_eq!(eval.eval(&AstNode::Symbol("m")), Ok(nil()));
    assert_eq!(eval.eval(&AstNode::Symbol("k")), Ok(AstNode::Number(4)));
}

#[test]
fn arguments_are_evaluated_from_left_to_right() {
    let mut eval = Eval::new();
    // The definition yields nil, so the sum fails, but only after the binding was made.
    assert_eq!(
        eval.eval(&parse("(+ (def! a 5) 1)")),
        Err(EvalError::NotANumber(nil()))
    );
    assert_eq!(eval.eval(&AstNode::Symbol("a")), Ok(AstNode::Number(5)));
    // The unbound symbol is met before the definition is reached.
    assert_eq!(
        eval.eval(&parse("(+ b (def! c 1))")),
        Err(EvalError::UnboundSymbol("b".to_string()))
    );
    assert_eq!(
        eval.eval(&AstNode::Symbol("c")),
        Err(EvalError::UnboundSymbol("c".to_string()))
    );
}

#[test]
fn unrecognized_operator() {
    assert_eq!(
        eval_fresh("(foo 1)"),
        Err(EvalError::UnrecognizedOperator("foo".to_string()))
    );
    assert_eq!(
        eval_fresh("(def 1)"),
        Err(EvalError::UnrecognizedOperator("def".to_string()))
    );
}

#[test]
fn unbound_symbol() {
    let mut eval = Eval::new();
    assert_eq!(
        eval.eval(&AstNode::Symbol("a")),
        Err(EvalError::UnboundSymbol("a".to_string()))
    );
    assert_eq!(
        eval_fresh("(+ 1 x)"),
        Err(EvalError::UnboundSymbol("x".to_string()))
    );
}

#[test]
fn the_head_of_a_list_must_be_a_symbol() {
    assert_eq!(eval_fresh("(1 2)"), Err(EvalError::NotAFunction));
    assert_eq!(eval_fresh("(() 1)"), Err(EvalError::NotAFunction));
    assert_eq!(eval_fresh("((+ 1 2) 1)"), Err(EvalError::NotAFunction));
}

#[test]
fn def_takes_a_symbol_and_one_expression() {
    assert_eq!(eval_fresh("(def!)"), Err(EvalError::BadDefinition));
    assert_eq!(eval_fresh("(def! a)"), Err(EvalError::BadDefinition));
    assert_eq!(eval_fresh("(def! a 1 2)"), Err(EvalError::BadDefinition));
    assert_eq!(eval_fresh("(def! 1 2)"), Err(EvalError::BadDefinition));
    assert_eq!(eval_fresh("(def! (a) 2)"), Err(EvalError::BadDefinition));
}

#[test]
fn def_does_not_bind_when_the_expression_has_no_value() {
    let mut eval = Eval::new();
    assert_eq!(
        eval.eval(&parse("(def! a (foo))")),
        Err(EvalError::UnrecognizedOperator("foo".to_string()))
    );
    assert_eq!(
        eval.eval(&AstNode::Symbol("a")),
        Err(EvalError::UnboundSymbol("a".to_string()))
    );
}

#[test]
fn arithmetic_needs_numbers() {
    assert_eq!(eval_fresh("(+ 1 ())"), Err(EvalError::NotANumber(nil())));
    assert_eq!(eval_fresh("(- ())"), Err(EvalError::NotANumber(nil())));
    assert_eq!(eval_fresh("(- 1 2 ())"), Err(EvalError::NotANumber(nil())));
    assert_eq!(eval_fresh("(- () 1)"), Err(EvalError::NotANumber(nil())));
}

#[test]
fn subtraction_needs_an_argument() {
    assert_eq!(eval_fresh("(-)"), Err(EvalError::NoOperands));
}

#[test]
fn results_out_of_range_are_overflow_errors() {
    assert_eq!(
        eval_fresh("(+ 9223372036854775807 1)"),
        Err(EvalError::Overflow)
    );
    assert_eq!(
        eval_fresh("(- -9223372036854775808 1)"),
        Err(EvalError::Overflow)
    );
    assert_eq!(eval_fresh("(- -9223372036854775808)"), Err(EvalError::Overflow));
    assert_eq!(
        eval_fresh("(- 0 -9223372036854775808)"),
        Err(EvalError::Overflow)
    );
}

#[test]
fn only_the_result_has_to_fit() {
    assert_eq!(
        eval_fresh("(+ 9223372036854775807 1 -1)"),
        Ok(AstNode::Number(i64::MAX))
    );
    assert_eq!(
        eval_fresh("(- -9223372036854775808 1 -1)"),
        Ok(AstNode::Number(i64::MIN))
    );
    assert_eq!(
        eval_fresh("(+ -9223372036854775808 9223372036854775807)"),
        Ok(AstNode::Number(-1))
    );
}

#[test]
fn evaluation_leaves_the_tree_as_it_is() {
    let tree = parse("(def! a (+ 1 2))");
    let copy = tree.clone();
    let mut eval = Eval::new();
    assert_eq!(eval.eval(&tree), Ok(nil()));
    assert_eq!(tree, copy);
}

#[test]
fn clone_is_a_deep_copy() {
    let tree = parse("(a (b 1 (c)) -2)");
    assert_eq!(tree.clone(), tree);
    assert_eq!(AstNode::Number(3).clone(), AstNode::Number(3));
    assert_eq!(AstNode::Symbol("x").clone(), AstNode::Symbol("x"));
}

#[test]
fn a_long_sum() {
    let count: i64 = 50_000;
    let mut text = String::from("(+");
    for i in 0..count {
        text.push_str(&format!(" {}", i));
    }
    text.push(')');
    let tree = parse(&text);
    assert_eq!(
        Eval::new().eval(&tree),
        Ok(AstNode::Number(count * (count - 1) / 2))
    );
}

#[test]
fn operators_on_values() {
    let values = vec![AstNode::Number(10), AstNode::Number(3), AstNode::Number(4)];
    assert_eq!(builtin_add(&values), Ok(AstNode::Number(17)));
    assert_eq!(builtin_sub(&values), Ok(AstNode::Number(3)));
    assert_eq!(builtin_add(&[]), Ok(AstNode::Number(0)));
    assert_eq!(builtin_sub(&[]), Err(EvalError::NoOperands));
    assert_eq!(unwrap_number(&AstNode::Number(5)), Ok(5));
    assert_eq!(
        unwrap_number(&AstNode::Symbol("a")),
        Err(EvalError::NotANumber(AstNode::Symbol("a")))
    );
    let mixed = vec![AstNode::Number(1), AstNode::Symbol("x"), nil()];
    assert_eq!(
        builtin_add(&mixed),
        Err(EvalError::NotANumber(AstNode::Symbol("x")))
    );
    assert_eq!(
        builtin_sub(&mixed),
        Err(EvalError::NotANumber(AstNode::Symbol("x")))
    );
}
