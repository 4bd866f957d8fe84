//! The expression tree that the parser produces and the backend lowers.

use vstd::prelude::*;

verus! {

/// An expression of the source language.
#[derive(Debug)]
pub enum Expr {
    /// A decimal literal, as written: `digit+ ('.' digit+)?`.
    Number(String),
    /// A variable of the backend's environment.
    Var(String),
    /// An operator or function applied to its arguments.
    Call(String, Vec<Expr>),
}

/// The mathematical form of an [`Expr`], over character sequences.
pub enum SpecExpr {
    Number(Seq<char>),
    Var(Seq<char>),
    Call(Seq<char>, Seq<SpecExpr>),
}

impl View for Expr {
    type V = SpecExpr;

    open spec fn view(&self) -> SpecExpr
        decreases self,
    {
        match self {
            Expr::Number(t) => SpecExpr::Number(t@),
            Expr::Var(n) => SpecExpr::Var(n@),
            Expr::Call(op, args) => SpecExpr::Call(
                op@,
                Seq::new(
                    args@.len(),
                    |i: int|
                        {
                            if 0 <= i < args@.len() {
                                args@[i].view()
                            } else {
                                SpecExpr::Number(Seq::empty())
                            }
                        },
                ),
            ),
        }
    }
}

} // verus!
