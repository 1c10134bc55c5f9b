//! The grammar of expressions, stated over sequences of characters, and a reader for it.
//!
//! ```text
//! sexpr  := ws '(' child* ws ')'
//! child  := sexpr / number / symbol
//! number := ws ['-'] digit+
//! symbol := ws symbol-char+
//! ```
//!
//! `list_spec`, `number_spec` and `symbol_spec` say what each form reads from a text: the
//! expression and the text behind it, or the failure. The reader computes exactly that, for
//! every tree type that implements [`Tree`].

use crate::lex::{
    expect, expect_spec, first_char, lemma_expect_char, lemma_run_len, lemma_run_split,
    lemma_skip_space_idempotent, lemma_space_run, run_len, skip_space, space_run, take_while,
    ParseErrorKind, ParseFailure, ParseResult,
};
use vstd::prelude::*;
use vstd::std_specs::iter::IteratorSpec;

verus! {

/// An expression as a mathematical tree.
pub enum Expr {
    /// An ordered sequence of expressions; the empty list is the nil value.
    List(Seq<Expr>),
    /// An identifier.
    Symbol(Seq<char>),
    /// An integer.
    Number(int),
}

/// What reading a form yields: the expression and the text behind it, or the failure.
pub type Reading = Result<(Expr, Seq<char>), ParseFailure>;

/// A tree type that expressions can be read into.
pub trait Tree<'a>: Sized {
    /// The expression that this tree stands for.
    spec fn model(&self) -> Expr;

    /// Builds a list node.
    fn list(children: Vec<Self>) -> (node: Self)
        ensures
            node.model() == Expr::List(children@.map_values(|child: Self| child.model())),
    ;

    /// Builds a symbol node.
    fn symbol(name: &'a str) -> (node: Self)
        ensures
            node.model() == Expr::Symbol(name@),
    ;

    /// Builds a number node.
    fn number(value: i64) -> (node: Self)
        ensures
            node.model() == Expr::Number(value as int),
    ;
}

/// The expressions that a sequence of trees stands for.
pub open spec fn models<'a, T: Tree<'a>>(trees: Seq<T>) -> Seq<Expr> {
    trees.map_values(|tree: T| tree.model())
}

/// A result of the reader as mathematical values.
pub open spec fn tree_result<'a, T: Tree<'a>>(r: ParseResult<'a, T>) -> Reading {
    match r {
        Ok((tree, rest)) => Ok((tree.model(), rest@)),
        Err(e) => Err(e@),
    }
}

/// An ASCII decimal digit.
pub open spec fn is_digit(c: char) -> bool {
    '0' <= c <= '9'
}

/// An ASCII letter or digit.
pub open spec fn is_alphanumeric(c: char) -> bool {
    is_digit(c) || 'a' <= c <= 'z' || 'A' <= c <= 'Z'
}

/// An ASCII punctuation character.
pub open spec fn is_punctuation(c: char) -> bool {
    '!' <= c <= '/' || ':' <= c <= '@' || '[' <= c <= '`' || '{' <= c <= '~'
}

/// A character that may occur in a symbol: a letter, a digit, or punctuation other than the
/// parentheses and the single quote.
pub open spec fn is_symbol_char(c: char) -> bool {
    is_alphanumeric(c) || (is_punctuation(c) && c != '(' && c != ')' && c != '\'')
}

/// Number of digits at the front of `s`.
pub open spec fn digit_run(s: Seq<char>) -> nat {
    run_len(s, |c: char| is_digit(c))
}

/// Number of symbol characters at the front of `s`.
pub open spec fn symbol_run(s: Seq<char>) -> nat {
    run_len(s, |c: char| is_symbol_char(c))
}

/// The number that a sequence of decimal digits denotes.
pub open spec fn decimal_value(digits: Seq<char>) -> int
    decreases digits.len(),
{
    if digits.len() == 0 {
        0
    } else {
        10 * decimal_value(digits.drop_last()) + (digits.last() as int - '0' as int)
    }
}

/// The value of a digit run with its sign applied.
pub open spec fn signed_decimal(digits: Seq<char>, negative: bool) -> int {
    if negative {
        -decimal_value(digits)
    } else {
        decimal_value(digits)
    }
}

/// `number := ws ['-'] digit+`, read as a signed 64-bit integer.
///
/// Without a digit behind the optional sign, a number was expected. A digit run whose value
/// does not fit is an integer error.
pub open spec fn number_spec(s: Seq<char>) -> Reading {
    let s = s.skip(space_run(s) as int);
    let negative = s.len() > 0 && s[0] == '-';
    let body = if negative {
        s.skip(1)
    } else {
        s
    };
    let n = digit_run(body) as int;
    let value = signed_decimal(body.take(n), negative);
    if n == 0 {
        Err(ParseFailure::Expected("number"@))
    } else if i64::MIN <= value <= i64::MAX {
        Ok((Expr::Number(value), body.skip(n)))
    } else {
        Err(ParseFailure::Integer)
    }
}

/// `symbol := ws symbol-char+`.
pub open spec fn symbol_spec(s: Seq<char>) -> Reading {
    let s = s.skip(space_run(s) as int);
    let n = symbol_run(s) as int;
    if n == 0 {
        Err(ParseFailure::Expected("symbol"@))
    } else {
        Ok((Expr::Symbol(s.take(n)), s.skip(n)))
    }
}

/// `sexpr := ws '(' children`.
pub open spec fn list_spec(s: Seq<char>) -> Reading
    decreases s.len(), 0int,
{
    match expect_spec("("@, s.skip(space_run(s) as int)) {
        Err(e) => Err(e),
        Ok(inner) => {
            proof {
                reveal_strlit("(");
                lemma_space_run(s);
            }
            match children_spec(inner) {
                Ok((children, rest)) => Ok((Expr::List(children), rest)),
                Err(e) => Err(e),
            }
        },
    }
}

/// `children := ws ')' | child children`.
///
/// At the end of the text a closing parenthesis was expected. A position where no child can
/// be read is an s-expression error, whatever made the child fail.
///
/// A child that was read has consumed text (`lemma_child_consumes`): the comparison of the
/// lengths holds always and only serves to show that this definition is well-founded.
pub open spec fn children_spec(s: Seq<char>) -> Result<(Seq<Expr>, Seq<char>), ParseFailure>
    decreases s.len(), 2int,
{
    let s1 = s.skip(space_run(s) as int);
    if s1.len() == 0 || s1[0] == ')' {
        match expect_spec(")"@, s1) {
            Ok(rest) => Ok((Seq::empty(), rest)),
            Err(e) => Err(e),
        }
    } else {
        proof {
            lemma_space_run(s);
        }
        match child_spec(s1) {
            Some((child, rest)) if rest.len() < s1.len() => match children_spec(rest) {
                Ok((children, rest)) => Ok((seq![child] + children, rest)),
                Err(e) => Err(e),
            },
            _ => Err(ParseFailure::SExpr),
        }
    }
}

/// `child := sexpr / number / symbol`, an ordered choice: the first form that can be read
/// is taken, and a form that cannot be read consumes nothing.
pub open spec fn child_spec(s: Seq<char>) -> Option<(Expr, Seq<char>)>
    decreases s.len(), 1int,
{
    if let Ok(found) = list_spec(s) {
        Some(found)
    } else if let Ok(found) = number_spec(s) {
        Some(found)
    } else if let Ok(found) = symbol_spec(s) {
        Some(found)
    } else {
        None
    }
}

/// `rest` is what remains of `s` behind a non-empty prefix.
pub open spec fn is_proper_suffix(rest: Seq<char>, s: Seq<char>) -> bool {
    rest.len() < s.len() && rest == s.skip(s.len() - rest.len())
}

/// A prefix of a digit run denotes a number between zero and the number of the whole run.
pub proof fn lemma_decimal_prefix(digits: Seq<char>, k: int)
    requires
        0 <= k <= digits.len(),
        forall|i: int| 0 <= i < digits.len() ==> is_digit(#[trigger] digits[i]),
    ensures
        0 <= decimal_value(digits.take(k)) <= decimal_value(digits),
    decreases digits.len(),
{
    if k == digits.len() {
        assert(digits.take(k) =~= digits);
        if k > 0 {
            lemma_decimal_prefix(digits.drop_last(), k - 1);
        }
    } else {
        let front = digits.drop_last();
        lemma_decimal_prefix(front, k);
        assert(front.take(k) =~= digits.take(k));
    }
}

/// A number that was read is a number node and leaves a proper suffix of the text.
pub proof fn lemma_number_consumes(s: Seq<char>)
    ensures
        number_spec(s) matches Ok((tree, rest)) ==> tree is Number && is_proper_suffix(rest, s),
{
    lemma_space_run(s);
    let s1 = s.skip(space_run(s) as int);
    let body = if s1.len() > 0 && s1[0] == '-' {
        s1.skip(1)
    } else {
        s1
    };
    lemma_run_len(body, |c: char| is_digit(c));
    if let Ok((_, rest)) = number_spec(s) {
        assert(rest =~= s.skip(s.len() - rest.len()));
    }
}

/// A symbol that was read is a symbol node and leaves a proper suffix of the text.
pub proof fn lemma_symbol_consumes(s: Seq<char>)
    ensures
        symbol_spec(s) matches Ok((tree, rest)) ==> tree is Symbol && is_proper_suffix(rest, s),
{
    lemma_space_run(s);
    let s1 = s.skip(space_run(s) as int);
    lemma_run_len(s1, |c: char| is_symbol_char(c));
    if let Ok((_, rest)) = symbol_spec(s) {
        assert(rest =~= s.skip(s.len() - rest.len()));
    }
}

/// A list that was read is a list node and leaves a proper suffix of the text.
pub proof fn lemma_list_consumes(s: Seq<char>)
    ensures
        list_spec(s) matches Ok((tree, rest)) ==> tree is List && is_proper_suffix(rest, s),
    decreases s.len(), 0int,
{
    reveal_strlit("(");
    lemma_space_run(s);
    if let Ok(inner) = expect_spec("("@, s.skip(space_run(s) as int)) {
        lemma_children_consume(inner);
        if let Ok((_, rest)) = children_spec(inner) {
            assert(rest =~= s.skip(s.len() - rest.len()));
        }
    }
}

/// The children of a list, once read up to the closing parenthesis, leave a proper suffix of
/// the text.
pub proof fn lemma_children_consume(s: Seq<char>)
    ensures
        children_spec(s) matches Ok((_, rest)) ==> is_proper_suffix(rest, s),
    decreases s.len(), 2int,
{
    reveal_strlit(")");
    lemma_space_run(s);
    let s1 = s.skip(space_run(s) as int);
    if s1.len() == 0 || s1[0] == ')' {
        if let Ok(rest) = expect_spec(")"@, s1) {
            assert(rest =~= s.skip(s.len() - rest.len()));
        }
    } else {
        lemma_child_consumes(s1);
        if let Some((_, mid)) = child_spec(s1) {
            lemma_children_consume(mid);
            if let Ok((_, rest)) = children_spec(mid) {
                assert(rest =~= s.skip(s.len() - rest.len()));
            }
        }
    }
}

/// A child that was read leaves a proper suffix of the text: reading the children of a list
/// always advances.
pub proof fn lemma_child_consumes(s: Seq<char>)
    ensures
        child_spec(s) matches Some((_, rest)) ==> is_proper_suffix(rest, s),
    decreases s.len(), 1int,
{
    lemma_list_consumes(s);
    lemma_number_consumes(s);
    lemma_symbol_consumes(s);
}

/// The children of a list as the grammar has them: the comparison of lengths in
/// `children_spec` never decides anything.
pub proof fn lemma_children_unfold(s: Seq<char>)
    ensures
        children_spec(s) == ({
            let s1 = s.skip(space_run(s) as int);
            if s1.len() == 0 || s1[0] == ')' {
                match expect_spec(")"@, s1) {
                    Ok(rest) => Ok((Seq::empty(), rest)),
                    Err(e) => Err(e),
                }
            } else {
                match child_spec(s1) {
                    Some((child, rest)) => match children_spec(rest) {
                        Ok((children, rest)) => Ok((seq![child] + children, rest)),
                        Err(e) => Err(e),
                    },
                    None => Err(ParseFailure::SExpr),
                }
            }
        }),
{
    lemma_child_consumes(s.skip(space_run(s) as int));
}

/// Whitespace before a list is of no account.
pub proof fn lemma_list_ignores_leading_space(s: Seq<char>)
    ensures
        list_spec(s.skip(space_run(s) as int)) == list_spec(s),
{
    let trimmed = s.skip(space_run(s) as int);
    lemma_skip_space_idempotent(s);
    assert(trimmed.skip(0) =~= trimmed);
}

/// Reading is deterministic: two results of reading the same text as a list agree, in the
/// expression that the trees stand for, in the text left behind, and in the failure.
pub proof fn lemma_parse_deterministic<'a, T: Tree<'a>>(
    input: &str,
    first: ParseResult<'a, T>,
    second: ParseResult<'a, T>,
)
    requires
        tree_result(first) == list_spec(input@),
        tree_result(second) == list_spec(input@),
    ensures
        tree_result(first) == tree_result(second),
{
}

/// Tests for an ASCII decimal digit.
pub fn is_ascii_digit(c: &char) -> (b: bool)
    ensures
        b == is_digit(*c),
{
    let c = *c;
    '0' <= c && c <= '9'
}

/// Tests for a character that may occur in a symbol.
pub fn is_symbol_character(c: &char) -> (b: bool)
    ensures
        b == is_symbol_char(*c),
{
    let c = *c;
    let alphanumeric = ('0' <= c && c <= '9') || ('a' <= c && c <= 'z') || ('A' <= c && c <= 'Z');
    let punctuation = ('!' <= c && c <= '/') || (':' <= c && c <= '@') || ('[' <= c && c <= '`')
        || ('{' <= c && c <= '~');
    alphanumeric || (punctuation && c != '(' && c != ')' && c != '\'')
}

/// Reads a digit run as a signed 64-bit integer, `None` where its value does not fit.
fn decimal_i64(digits: &str, negative: bool) -> (r: Option<i64>)
    requires
        forall|i: int| 0 <= i < digits@.len() ==> is_digit(#[trigger] digits@[i]),
    ensures
        match r {
            Some(value) => value == signed_decimal(digits@, negative),
            None => !(i64::MIN <= signed_decimal(digits@, negative) <= i64::MAX),
        },
{
    let mut chars = digits.chars();
    let ghost mut n: int = 0;
    // The negated value of the digits read so far: the negative range is the wider one.
    let mut below: i64 = 0;
    loop
        invariant_except_break
            chars.remaining() == digits@.skip(n),
        invariant
            0 <= n <= digits@.len(),
            forall|i: int| 0 <= i < digits@.len() ==> is_digit(#[trigger] digits@[i]),
            below == -decimal_value(digits@.take(n)),
        ensures
            n == digits@.len(),
        decreases digits@.len() - n,
    {
        let c = match chars.next() {
            Some(c) => c,
            None => {
                break;
            },
        };
        proof {
            assert(digits@.take(n + 1).drop_last() =~= digits@.take(n));
            lemma_decimal_prefix(digits@, n + 1);
        }
        let digit = (c as u32 - '0' as u32) as i64;
        let shifted = match below.checked_mul(10) {
            Some(shifted) => shifted,
            None => {
                return None;
            },
        };
        below = match shifted.checked_sub(digit) {
            Some(next) => next,
            None => {
                return None;
            },
        };
        proof {
            n = n + 1;
        }
    }
    if negative {
        Some(below)
    } else {
        0i64.checked_sub(below)
    }
}

/// Reads a number literal from the front of `input`.
pub fn parse_number<'a, T: Tree<'a>>(input: &'a str) -> (r: ParseResult<'a, T>)
    ensures
        tree_result(r) == number_spec(input@),
{
    let start = skip_space(input);
    let (negative, body) = match expect("-", start) {
        Ok(body) => (true, body),
        Err(_) => (false, start),
    };
    proof {
        reveal_strlit("-");
        lemma_expect_char('-', start@);
    }
    match take_while(body, "number", is_ascii_digit) {
        Ok((digits, rest)) => {
            proof {
                lemma_run_split(body@, digits@, rest@, |c: char| is_digit(c));
            }
            match decimal_i64(digits, negative) {
                Some(value) => Ok((T::number(value), rest)),
                None => Err(ParseErrorKind::Integer),
            }
        },
        Err(e) => Err(e),
    }
}

/// Reads a symbol from the front of `input`.
pub fn parse_symbol<'a, T: Tree<'a>>(input: &'a str) -> (r: ParseResult<'a, T>)
    ensures
        tree_result(r) == symbol_spec(input@),
{
    let start = skip_space(input);
    match take_while(start, "symbol", is_symbol_character) {
        Ok((name, rest)) => {
            proof {
                lemma_run_split(start@, name@, rest@, |c: char| is_symbol_char(c));
            }
            Ok((T::symbol(name), rest))
        },
        Err(e) => Err(e),
    }
}

/// The children read so far, followed by the outcome of reading on.
spec fn prepend(
    done: Seq<Expr>,
    more: Result<(Seq<Expr>, Seq<char>), ParseFailure>,
) -> Result<(Seq<Expr>, Seq<char>), ParseFailure> {
    match more {
        Ok((children, rest)) => Ok((done + children, rest)),
        Err(e) => Err(e),
    }
}

/// The list that the children make up.
spec fn enclose(children: Result<(Seq<Expr>, Seq<char>), ParseFailure>) -> Reading {
    match children {
        Ok((children, rest)) => Ok((Expr::List(children), rest)),
        Err(e) => Err(e),
    }
}

/// Reads a parenthesised list from the front of `input`.
///
/// Behind optional whitespace and the opening parenthesis, children are read up to the
/// closing parenthesis: each one as a nested list, else as a number, else as a symbol.
/// Whitespace may stand before every child and before the closing parenthesis. The text
/// behind the closing parenthesis is handed back as it is.
///
/// A nested list is read by a nested call, so the call stack grows with the depth of the
/// nesting.
pub fn parse_list<'a, T: Tree<'a>>(input: &'a str) -> (r: ParseResult<'a, T>)
    ensures
        tree_result(r) == list_spec(input@),
    decreases input@.len(),
{
    let start = skip_space(input);
    let mut cursor = expect("(", start)?;
    let mut children: Vec<T> = Vec::new();
    proof {
        reveal_strlit("(");
        lemma_space_run(input@);
    }
    loop
        invariant_except_break
            list_spec(input@) == enclose(prepend(models(children@), children_spec(cursor@))),
        invariant
            cursor@.len() < input@.len(),
        ensures
            list_spec(input@) == enclose(
                prepend(
                    models(children@),
                    match expect_spec(")"@, cursor@) {
                        Ok(rest) => Ok((Seq::empty(), rest)),
                        Err(e) => Err(e),
                    },
                ),
            ),
        decreases cursor@.len(),
    {
        proof {
            lemma_space_run(cursor@);
        }
        cursor = skip_space(cursor);
        match first_char(cursor) {
            None => {
                break;
            },
            Some(c) => {
                if c == ')' {
                    break;
                }
            },
        }
        let child = match parse_list::<T>(cursor) {
            Ok(found) => Ok(found),
            Err(_) => match parse_number::<T>(cursor) {
                Ok(found) => Ok(found),
                Err(_) => parse_symbol::<T>(cursor),
            },
        };
        match child {
            Ok((node, rest)) => {
                proof {
                    lemma_child_consumes(cursor@);
                    assert(models(children@.push(node)) =~= models(children@).push(node.model()));
                    if let Ok((more, _)) = children_spec(rest@) {
                        assert(models(children@) + (seq![node.model()] + more) =~= models(
                            children@,
                        ).push(node.model()) + more);
                    }
                }
                children.push(node);
                cursor = rest;
            },
            Err(_) => {
                return Err(ParseErrorKind::SExpr);
            },
        }
    }
    let rest = expect(")", cursor)?;
    Ok((T::list(children), rest))
}

} // verus!
