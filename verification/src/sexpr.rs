//! S-expressions tagged by their kind.

use crate::lex::{Parse, ParseResult};
use crate::syntax::{
    number_spec, parse_list, parse_number, parse_symbol, symbol_spec, tree_result, Expr, Tree,
};
use vstd::prelude::*;

verus! {

/// An s-expression by kind: a list of s-expressions, a symbol, or a number.
///
/// Symbols borrow their names from the text that was parsed.
#[derive(Debug, PartialEq)]
pub enum SExprType<'a> {
    SExpr(Vec<SExprType<'a>>),
    Symbol(&'a str),
    Number(i64),
}

impl<'a> View for SExprType<'a> {
    type V = Expr;

    open spec fn view(&self) -> Expr
        decreases self,
    {
        match self {
            SExprType::SExpr(children) => Expr::List(
                Seq::new(
                    children@.len(),
                    |i: int|
                        if 0 <= i < children@.len() {
                            children@[i]@
                        } else {
                            Expr::List(Seq::empty())
                        },
                ),
            ),
            SExprType::Symbol(name) => Expr::Symbol(name@),
            SExprType::Number(value) => Expr::Number(*value as int),
        }
    }
}

impl<'a> Tree<'a> for SExprType<'a> {
    open spec fn model(&self) -> Expr {
        self@
    }

    fn list(children: Vec<Self>) -> (node: Self) {
        let node = SExprType::SExpr(children);
        assert(node@->List_0 =~= children@.map_values(|child: Self| child.model()));
        node
    }

    fn symbol(name: &'a str) -> (node: Self) {
        SExprType::Symbol(name)
    }

    fn number(value: i64) -> (node: Self) {
        SExprType::Number(value)
    }
}

impl<'a> SExprType<'a> {
    /// Reads a number literal: optional whitespace, an optional `-`, and digits.
    pub fn match_number(input: &'a str) -> (r: ParseResult<'a, SExprType<'a>>)
        ensures
            tree_result(r) == number_spec(input@),
    {
        parse_number(input)
    }

    /// Reads a symbol: optional whitespace and a run of symbol characters.
    pub fn match_symbol(input: &'a str) -> (r: ParseResult<'a, SExprType<'a>>)
        ensures
            tree_result(r) == symbol_spec(input@),
    {
        parse_symbol(input)
    }
}

impl<'a> Parse<'a> for SExprType<'a> {
    fn parse(input: &'a str) -> (r: ParseResult<'a, SExprType<'a>>) {
        parse_list(input)
    }
}

} // verus!
