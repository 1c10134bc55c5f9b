//! Evaluation of expressions against an environment of bindings.

use crate::ast::{views, AstNode};
use crate::env::{bind, lemma_lookup_bind, lookup, Env, Frames};
use crate::lex::same_text;
use crate::syntax::Expr;
use vstd::prelude::*;

verus! {

/// What symbols are bound to.
pub type Bindings = Map<Seq<char>, Expr>;

/// Why an expression has no value.
#[derive(Debug, PartialEq)]
pub enum EvalError<'e> {
    /// The symbol is not bound.
    UnboundSymbol(String),
    /// The head of a list names no built-in operator.
    UnrecognizedOperator(String),
    /// The head of a non-empty list is not a symbol.
    NotAFunction,
    /// `def!` was not given a symbol and one expression.
    BadDefinition,
    /// An argument of an arithmetic operator evaluated to this value, which is no number.
    NotANumber(AstNode<'e>),
    /// `-` was given no argument.
    NoOperands,
    /// The result of an arithmetic operator is not a signed 64-bit integer.
    Overflow,
}

/// The mathematical content of an [`EvalError`].
pub enum EvalFailure {
    UnboundSymbol(Seq<char>),
    UnrecognizedOperator(Seq<char>),
    NotAFunction,
    BadDefinition,
    NotANumber(Expr),
    NoOperands,
    Overflow,
}

impl<'e> View for EvalError<'e> {
    type V = EvalFailure;

    open spec fn view(&self) -> EvalFailure {
        match self {
            EvalError::UnboundSymbol(name) => EvalFailure::UnboundSymbol(name@),
            EvalError::UnrecognizedOperator(name) => EvalFailure::UnrecognizedOperator(name@),
            EvalError::NotAFunction => EvalFailure::NotAFunction,
            EvalError::BadDefinition => EvalFailure::BadDefinition,
            EvalError::NotANumber(value) => EvalFailure::NotANumber(value@),
            EvalError::NoOperands => EvalFailure::NoOperands,
            EvalError::Overflow => EvalFailure::Overflow,
        }
    }
}

/// The nil value: the empty list.
pub open spec fn nil() -> Expr {
    Expr::List(Seq::empty())
}

/// The first of `values` that is not a number.
pub open spec fn first_non_number(values: Seq<Expr>) -> Option<Expr>
    decreases values.len(),
{
    if values.len() == 0 {
        None
    } else if values[0] is Number {
        first_non_number(values.drop_first())
    } else {
        Some(values[0])
    }
}

/// The sum of the numbers among `values`.
pub open spec fn sum(values: Seq<Expr>) -> int
    decreases values.len(),
{
    if values.len() == 0 {
        0
    } else {
        match values[0] {
            Expr::Number(n) => n + sum(values.drop_first()),
            _ => sum(values.drop_first()),
        }
    }
}

/// The number `n` as a value, if it is a signed 64-bit integer.
pub open spec fn number(n: int) -> Result<Expr, EvalFailure> {
    if i64::MIN <= n <= i64::MAX {
        Ok(Expr::Number(n))
    } else {
        Err(EvalFailure::Overflow)
    }
}

/// `+` applied to evaluated arguments: their sum, zero for no arguments.
pub open spec fn add_spec(values: Seq<Expr>) -> Result<Expr, EvalFailure> {
    match first_non_number(values) {
        Some(value) => Err(EvalFailure::NotANumber(value)),
        None => number(sum(values)),
    }
}

/// `-` applied to evaluated arguments: the negation of a single argument, else the first
/// argument less all the others.
pub open spec fn sub_spec(values: Seq<Expr>) -> Result<Expr, EvalFailure> {
    if values.len() == 0 {
        Err(EvalFailure::NoOperands)
    } else {
        match first_non_number(values) {
            Some(value) => Err(EvalFailure::NotANumber(value)),
            None => if values.len() == 1 {
                number(-sum(values))
            } else {
                number(values[0]->Number_0 - sum(values.drop_first()))
            },
        }
    }
}

/// The value of `node` under `env`, or why it has none, together with the bindings after
/// the evaluation.
///
/// Numbers and the empty list evaluate to themselves and a symbol to what it is bound to.
/// A non-empty list applies the operator that its head names to the rest of the list.
pub open spec fn eval_spec(node: Expr, env: Bindings) -> (Result<Expr, EvalFailure>, Bindings)
    decreases node, 0int,
{
    match node {
        Expr::Number(_) => (Ok(node), env),
        Expr::Symbol(name) => if env.contains_key(name) {
            (Ok(env[name]), env)
        } else {
            (Err(EvalFailure::UnboundSymbol(name)), env)
        },
        Expr::List(items) => if items.len() == 0 {
            (Ok(node), env)
        } else {
            apply_spec(items[0], items.drop_first(), env)
        },
    }
}

/// The application of `head` to the unevaluated `args`.
///
/// `+` and `-` evaluate all their arguments first; `def!` does not evaluate its first.
pub open spec fn apply_spec(head: Expr, args: Seq<Expr>, env: Bindings) -> (
    Result<Expr, EvalFailure>,
    Bindings,
)
    decreases args, 2int,
{
    match head {
        Expr::Symbol(name) => if name == "+"@ {
            let (values, env) = eval_all_spec(args, env);
            match values {
                Ok(values) => (add_spec(values), env),
                Err(e) => (Err(e), env),
            }
        } else if name == "-"@ {
            let (values, env) = eval_all_spec(args, env);
            match values {
                Ok(values) => (sub_spec(values), env),
                Err(e) => (Err(e), env),
            }
        } else if name == "def!"@ {
            define_spec(args, env)
        } else {
            (Err(EvalFailure::UnrecognizedOperator(name)), env)
        },
        _ => (Err(EvalFailure::NotAFunction), env),
    }
}

/// `def!` applied to the unevaluated `args`: a symbol, which is not evaluated, and one
/// expression. The symbol is bound to the value of the expression, and the result is nil.
/// Where the expression has no value, nothing is bound.
pub open spec fn define_spec(args: Seq<Expr>, env: Bindings) -> (
    Result<Expr, EvalFailure>,
    Bindings,
)
    decreases args, 1int,
{
    if args.len() == 2 && args[0] is Symbol {
        let (value, env) = eval_spec(args[1], env);
        match value {
            Ok(value) => (Ok(nil()), env.insert(args[0]->Symbol_0, value)),
            Err(e) => (Err(e), env),
        }
    } else {
        (Err(EvalFailure::BadDefinition), env)
    }
}

/// The values of `args`, evaluated from left to right, each under the bindings that the one
/// before it left. The first argument without a value ends the evaluation.
pub open spec fn eval_all_spec(args: Seq<Expr>, env: Bindings) -> (
    Result<Seq<Expr>, EvalFailure>,
    Bindings,
)
    decreases args, 0int,
{
    if args.len() == 0 {
        (Ok(Seq::empty()), env)
    } else {
        let (first, env) = eval_spec(args[0], env);
        match first {
            Err(e) => (Err(e), env),
            Ok(first) => {
                let (others, env) = eval_all_spec(args.drop_first(), env);
                match others {
                    Ok(others) => (Ok(seq![first] + others), env),
                    Err(e) => (Err(e), env),
                }
            },
        }
    }
}

/// `later` binds every name that `earlier` binds.
pub open spec fn extends(later: Bindings, earlier: Bindings) -> bool {
    forall|name: Seq<char>| earlier.contains_key(name) ==> later.contains_key(name)
}

/// Evaluation never removes a binding: what was bound before is bound afterwards, whether
/// the expression has a value or not.
pub proof fn lemma_eval_keeps_bindings(node: Expr, env: Bindings)
    ensures
        extends(eval_spec(node, env).1, env),
    decreases node, 0int,
{
    if let Expr::List(items) = node {
        if items.len() > 0 {
            lemma_apply_keeps_bindings(items[0], items.drop_first(), env);
        }
    }
}

/// The application of an operator never removes a binding.
pub proof fn lemma_apply_keeps_bindings(head: Expr, args: Seq<Expr>, env: Bindings)
    ensures
        extends(apply_spec(head, args, env).1, env),
    decreases args, 2int,
{
    lemma_eval_all_keeps_bindings(args, env);
    lemma_define_keeps_bindings(args, env);
}

/// `def!` never removes a binding.
pub proof fn lemma_define_keeps_bindings(args: Seq<Expr>, env: Bindings)
    ensures
        extends(define_spec(args, env).1, env),
    decreases args, 1int,
{
    if args.len() == 2 && args[0] is Symbol {
        lemma_eval_keeps_bindings(args[1], env);
    }
}

/// The evaluation of arguments never removes a binding.
pub proof fn lemma_eval_all_keeps_bindings(args: Seq<Expr>, env: Bindings)
    ensures
        extends(eval_all_spec(args, env).1, env),
    decreases args, 0int,
{
    if args.len() > 0 {
        lemma_eval_keeps_bindings(args[0], env);
        let (first, next) = eval_spec(args[0], env);
        if first is Ok {
            lemma_eval_all_keeps_bindings(args.drop_first(), next);
        }
    }
}

/// Arguments that are numbers evaluate to themselves and leave the bindings as they are.
pub proof fn lemma_numbers_evaluate_to_themselves(args: Seq<Expr>, env: Bindings)
    requires
        forall|i: int| 0 <= i < args.len() ==> #[trigger] args[i] is Number,
    ensures
        eval_all_spec(args, env) == (Ok::<Seq<Expr>, EvalFailure>(args), env),
    decreases args.len(),
{
    if args.len() > 0 {
        let rest = args.drop_first();
        assert(forall|i: int| 0 <= i < rest.len() ==> #[trigger] rest[i] is Number);
        lemma_numbers_evaluate_to_themselves(rest, env);
        assert(eval_spec(args[0], env) == (Ok::<Expr, EvalFailure>(args[0]), env));
        assert(seq![args[0]] + rest =~= args);
    } else {
        assert(args =~= Seq::<Expr>::empty());
    }
}

/// A list of `+` and numbers evaluates to the sum of the numbers, and a list of `-` and
/// numbers to the first number less the others, or to the negation of a single number.
pub proof fn lemma_arithmetic_on_numbers(numbers: Seq<Expr>, env: Bindings)
    requires
        forall|i: int| 0 <= i < numbers.len() ==> #[trigger] numbers[i] is Number,
    ensures
        eval_spec(Expr::List(seq![Expr::Symbol("+"@)] + numbers), env) == (
            add_spec(numbers),
            env,
        ),
        eval_spec(Expr::List(seq![Expr::Symbol("-"@)] + numbers), env) == (
            sub_spec(numbers),
            env,
        ),
{
    reveal_strlit("+");
    reveal_strlit("-");
    assert("+"@[0] != "-"@[0]);
    lemma_numbers_evaluate_to_themselves(numbers, env);
    assert((seq![Expr::Symbol("+"@)] + numbers).drop_first() =~= numbers);
    assert((seq![Expr::Symbol("-"@)] + numbers).drop_first() =~= numbers);
}

/// Where `(def! name expr)` has a value, that value is nil, and `name` then evaluates to
/// the value that `expr` had.
pub proof fn lemma_define_then_lookup(name: Seq<char>, expr: Expr, env: Bindings)
    ensures
        ({
            let definition = Expr::List(
                seq![Expr::Symbol("def!"@), Expr::Symbol(name), expr],
            );
            let (outcome, after) = eval_spec(definition, env);
            outcome is Ok ==> outcome == Ok::<Expr, EvalFailure>(nil()) && eval_spec(
                Expr::Symbol(name),
                after,
            ) == (eval_spec(expr, env).0, after)
        }),
{
    reveal_strlit("def!");
    reveal_strlit("+");
    reveal_strlit("-");
    assert("def!"@.len() == 4 && "+"@.len() == 1 && "-"@.len() == 1);
}

/// What the frames of an environment bind, each value taken as the expression it stands for.
pub open spec fn bindings_of(frames: Frames<AstNode>) -> Bindings {
    Map::new(
        |name: Seq<char>| lookup(frames, name) is Some,
        |name: Seq<char>| lookup(frames, name)->Some_0@,
    )
}

/// The outcome of an evaluation as a mathematical value.
pub open spec fn outcome(r: Result<AstNode, EvalError>) -> Result<Expr, EvalFailure> {
    match r {
        Ok(value) => Ok(value@),
        Err(e) => Err(e@),
    }
}

/// The outcome of evaluating several expressions as a mathematical value.
spec fn outcomes(r: Result<Vec<AstNode>, EvalError>) -> Result<Seq<Expr>, EvalFailure> {
    match r {
        Ok(values) => Ok(views(values@)),
        Err(e) => Err(e@),
    }
}

/// The values found so far, followed by the outcome of evaluating on.
spec fn and_then_all(
    done: Seq<Expr>,
    more: (Result<Seq<Expr>, EvalFailure>, Bindings),
) -> (Result<Seq<Expr>, EvalFailure>, Bindings) {
    match more.0 {
        Ok(values) => (Ok(done + values), more.1),
        Err(e) => (Err(e), more.1),
    }
}

/// Takes the number out of a value.
pub fn unwrap_number<'e>(item: &AstNode<'e>) -> (r: Result<i64, EvalError<'e>>)
    ensures
        match r {
            Ok(n) => item@ == Expr::Number(n as int),
            Err(e) => !(item@ is Number) && e@ == EvalFailure::NotANumber(item@),
        },
{
    if let AstNode::Number(n) = item {
        Ok(*n)
    } else {
        Err(EvalError::NotANumber(item.clone()))
    }
}

/// The number `n` as a value, if it is a signed 64-bit integer.
fn number_value<'e>(n: i128) -> (r: Result<AstNode<'e>, EvalError<'e>>)
    ensures
        outcome(r) == number(n as int),
{
    if n < i64::MIN as i128 || n > i64::MAX as i128 {
        Err(EvalError::Overflow)
    } else {
        Ok(AstNode::Number(n as i64))
    }
}

/// `+`: the sum of the arguments.
pub fn builtin_add<'e>(args: &[AstNode<'e>]) -> (r: Result<AstNode<'e>, EvalError<'e>>)
    ensures
        outcome(r) == add_spec(views(args@)),
{
    let ghost values = views(args@);
    let mut total: i128 = 0;
    let mut i: usize = 0;
    assert(values.skip(0) =~= values);
    while i < args.len()
        invariant
            values == views(args@),
            i <= args.len(),
            first_non_number(values) == first_non_number(values.skip(i as int)),
            sum(values) == total + sum(values.skip(i as int)),
            -0x8000_0000_0000_0000 * i <= total <= 0x8000_0000_0000_0000 * i,
        decreases args.len() - i,
    {
        assert(values.skip(i as int).drop_first() =~= values.skip(i + 1));
        let n = unwrap_number(&args[i])?;
        total = total + n as i128;
        i = i + 1;
    }
    number_value(total)
}

/// `-`: the negation of a single argument, else the first argument less all the others.
pub fn builtin_sub<'e>(args: &[AstNode<'e>]) -> (r: Result<AstNode<'e>, EvalError<'e>>)
    ensures
        outcome(r) == sub_spec(views(args@)),
{
    let ghost values = views(args@);
    if args.len() == 0 {
        return Err(EvalError::NoOperands);
    }
    let head = unwrap_number(&args[0])?;
    let mut rest: i128 = 0;
    let mut i: usize = 1;
    while i < args.len()
        invariant
            values == views(args@),
            1 <= i <= args.len(),
            first_non_number(values) == first_non_number(values.skip(i as int)),
            sum(values.drop_first()) == rest + sum(values.skip(i as int)),
            -0x8000_0000_0000_0000 * i <= rest <= 0x8000_0000_0000_0000 * i,
        decreases args.len() - i,
    {
        assert(values.skip(i as int).drop_first() =~= values.skip(i + 1));
        let n = unwrap_number(&args[i])?;
        rest = rest + n as i128;
        i = i + 1;
    }
    if args.len() == 1 {
        number_value(-(head as i128))
    } else {
        number_value(head as i128 - rest)
    }
}

/// An evaluator: the built-in operators together with the bindings that `def!` has made.
pub struct Eval<'e> {
    env: Env<AstNode<'e>>,
}

impl<'e> View for Eval<'e> {
    type V = Bindings;

    closed spec fn view(&self) -> Bindings {
        bindings_of(self.env@)
    }
}

impl<'e> Eval<'e> {
    /// The evaluator has its base frame, which holds what `def!` binds.
    pub closed spec fn wf(&self) -> bool {
        self.env@.len() > 0
    }

    /// An evaluator without bindings.
    pub fn new() -> (eval: Eval<'e>)
        ensures
            eval.wf(),
            eval@ == Map::<Seq<char>, Expr>::empty(),
    {
        let eval = Eval { env: Env::empty() };
        proof {
            let frames = eval.env@;
            assert forall|name: Seq<char>| lookup(frames, name) is None by {
                assert(lookup(frames.drop_last(), name) is None);
            }
        }
        eval
    }

    /// Evaluates `node`.
    ///
    /// Bindings that `def!` made stay, also where the evaluation fails later on. A nested
    /// list is evaluated by a nested call, so the call stack grows with the depth of the
    /// nesting.
    pub fn eval(&mut self, node: &AstNode<'_>) -> (r: Result<AstNode<'e>, EvalError<'e>>)
        requires
            old(self).wf(),
        ensures
            final(self).wf(),
            (outcome(r), final(self)@) == eval_spec(node@, old(self)@),
        decreases node@, 0int,
    {
        match node {
            AstNode::SExpr(node_list) => {
                if node_list.len() == 0 {
                    let value = AstNode::SExpr(Vec::new());
                    assert(value@->List_0 =~= node@->List_0);
                    Ok(value)
                } else {
                    let (head, args) = node_list.as_slice().split_at(1);
                    assert(views(args@) =~= node@->List_0.subrange(1, node_list.len() as int));
                    self.eval_builtin(&head[0], args)
                }
            },
            AstNode::Number(number) => Ok(AstNode::Number(*number)),
            AstNode::Symbol(symbol) => {
                match self.env.get(symbol) {
                    Some(value) => Ok(value.clone()),
                    None => Err(EvalError::UnboundSymbol((*symbol).to_owned())),
                }
            },
        }
    }

    /// Evaluates `args` from left to right, up to the first that has no value.
    fn evlis(&mut self, args: &[AstNode<'_>]) -> (r: Result<Vec<AstNode<'e>>, EvalError<'e>>)
        requires
            old(self).wf(),
        ensures
            final(self).wf(),
            (outcomes(r), final(self)@) == eval_all_spec(views(args@), old(self)@),
        decreases views(args@), 0int,
    {
        let ghost nodes = views(args@);
        let mut values: Vec<AstNode<'e>> = Vec::new();
        let mut i: usize = 0;
        assert(nodes.skip(0) =~= nodes);
        assert(views(values@) + eval_all_spec(nodes, self@).0->Ok_0 =~= eval_all_spec(
            nodes,
            self@,
        ).0->Ok_0);
        while i < args.len()
            invariant
                self.wf(),
                nodes == views(args@),
                i <= args.len(),
                eval_all_spec(nodes, old(self)@) == and_then_all(
                    views(values@),
                    eval_all_spec(nodes.skip(i as int), self@),
                ),
            decreases args.len() - i,
        {
            let ghost found = views(values@);
            assert(nodes.skip(i as int).drop_first() =~= nodes.skip(i + 1));
            let value = self.eval(&args[i])?;
            proof {
                assert(views(values@.push(value)) =~= found.push(value@));
                if let Ok(others) = eval_all_spec(nodes.skip(i + 1), self@).0 {
                    assert(found + (seq![value@] + others) =~= found.push(value@) + others);
                }
            }
            values.push(value);
            i = i + 1;
        }
        Ok(values)
    }

    /// Applies the operator that `first_node` names to `args`.
    fn eval_builtin(&mut self, first_node: &AstNode<'_>, args: &[AstNode<'_>]) -> (r: Result<
        AstNode<'e>,
        EvalError<'e>,
    >)
        requires
            old(self).wf(),
        ensures
            final(self).wf(),
            (outcome(r), final(self)@) == apply_spec(first_node@, views(args@), old(self)@),
        decreases views(args@), 2int,
    {
        if let AstNode::Symbol(fn_name) = first_node {
            if same_text(fn_name, "+") {
                builtin_add(self.evlis(args)?.as_slice())
            } else if same_text(fn_name, "-") {
                builtin_sub(self.evlis(args)?.as_slice())
            } else if same_text(fn_name, "def!") {
                self.builtin_def(args)
            } else {
                Err(EvalError::UnrecognizedOperator((*fn_name).to_owned()))
            }
        } else {
            Err(EvalError::NotAFunction)
        }
    }

    /// `def!`: binds the symbol in the first argument to the value of the second and yields
    /// nil.
    fn builtin_def(&mut self, raw_args: &[AstNode<'_>]) -> (r: Result<AstNode<'e>, EvalError<'e>>)
        requires
            old(self).wf(),
        ensures
            final(self).wf(),
            (outcome(r), final(self)@) == define_spec(views(raw_args@), old(self)@),
        decreases views(raw_args@), 1int,
    {
        if raw_args.len() != 2 {
            return Err(EvalError::BadDefinition);
        }
        if let AstNode::Symbol(var) = &raw_args[0] {
            assert(views(raw_args@)[1] == raw_args@[1]@);
            let val = self.eval(&raw_args[1])?;
            proof {
                assert forall|name: Seq<char>|
                    lookup(bind(self.env@, var@, val), name) == if name == var@ {
                        Some(val)
                    } else {
                        lookup(self.env@, name)
                    } by {
                    lemma_lookup_bind(self.env@, var@, val, name);
                }
            }
            self.env.put(var, val);
            let value = AstNode::SExpr(Vec::new());
            assert(value@->List_0 =~= nil()->List_0);
            Ok(value)
        } else {
            Err(EvalError::BadDefinition)
        }
    }
}

} // verus!
