//! The expression tree that the evaluator works on.

use crate::lex::{Parse, ParseResult};
use crate::syntax::{
    number_spec, parse_list, parse_number, parse_symbol, symbol_spec, tree_result, Expr, Tree,
};
use vstd::prelude::*;

verus! {

/// An expression: a list of expressions, a symbol, or a number.
///
/// Symbols borrow their names from the text that was parsed.
#[derive(Debug, PartialEq)]
pub enum AstNode<'a> {
    SExpr(Vec<AstNode<'a>>),
    Symbol(&'a str),
    Number(i64),
}

impl<'a> View for AstNode<'a> {
    type V = Expr;

    open spec fn view(&self) -> Expr
        decreases self,
    {
        match self {
            AstNode::SExpr(children) => Expr::List(
                Seq::new(
                    children@.len(),
                    |i: int|
                        if 0 <= i < children@.len() {
                            children@[i]@
                        } else {
                            Expr::List(Seq::empty())
                        },
                ),
            ),
            AstNode::Symbol(name) => Expr::Symbol(name@),
            AstNode::Number(value) => Expr::Number(*value as int),
        }
    }
}

/// The expressions that a sequence of nodes stands for.
pub open spec fn views(nodes: Seq<AstNode>) -> Seq<Expr> {
    nodes.map_values(|node: AstNode| node@)
}

impl<'a> Tree<'a> for AstNode<'a> {
    open spec fn model(&self) -> Expr {
        self@
    }

    fn list(children: Vec<Self>) -> (node: Self) {
        let node = AstNode::SExpr(children);
        assert(node@->List_0 =~= children@.map_values(|child: Self| child.model()));
        node
    }

    fn symbol(name: &'a str) -> (node: Self) {
        AstNode::Symbol(name)
    }

    fn number(value: i64) -> (node: Self) {
        AstNode::Number(value)
    }
}

impl<'a> Clone for AstNode<'a> {
    /// A deep copy: the clone stands for the same expression.
    fn clone(&self) -> (copy: Self)
        ensures
            copy@ == self@,
        decreases self,
    {
        match self {
            AstNode::SExpr(children) => {
                let mut copies: Vec<AstNode<'a>> = Vec::new();
                let mut i: usize = 0;
                while i < children.len()
                    invariant
                        self is SExpr,
                        self->SExpr_0 == *children,
                        i <= children.len(),
                        copies@.len() == i,
                        forall|j: int| 0 <= j < i ==> copies@[j]@ == children@[j]@,
                    decreases children.len() - i,
                {
                    let child = children[i].clone();
                    copies.push(child);
                    i = i + 1;
                }
                assert(AstNode::SExpr(copies)@->List_0 =~= self@->List_0);
                AstNode::SExpr(copies)
            },
            AstNode::Symbol(name) => AstNode::Symbol(name),
            AstNode::Number(value) => AstNode::Number(*value),
        }
    }
}

impl<'a> AstNode<'a> {
    /// Reads a number literal: optional whitespace, an optional `-`, and digits.
    pub fn match_number(input: &'a str) -> (r: ParseResult<'a, AstNode<'a>>)
        ensures
            tree_result(r) == number_spec(input@),
    {
        parse_number(input)
    }

    /// Reads a symbol: optional whitespace and a run of symbol characters.
    pub fn match_symbol(input: &'a str) -> (r: ParseResult<'a, AstNode<'a>>)
        ensures
            tree_result(r) == symbol_spec(input@),
    {
        parse_symbol(input)
    }
}

impl<'a> Parse<'a> for AstNode<'a> {
    fn parse(input: &'a str) -> (r: ParseResult<'a, AstNode<'a>>) {
        parse_list(input)
    }
}

} // verus!
