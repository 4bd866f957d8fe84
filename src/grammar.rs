//! The grammar of the source language, as functions on the input's characters.
//!
//! ```text
//! expr       := add_expr ( ('<' | '>' | '<=' | '>=') add_expr )?
//! add_expr   := mul_expr ( ('+' | '-') mul_expr )*
//! mul_expr   := tight_expr ( ('*' | '/') tight_expr )*
//! tight_expr := '(' expr ')'
//!             | ('sqabs' | 'real' | 'conj' | 'neg') '(' expr ')'
//!             | number
//!             | identifier
//! number     := digit+ ('.' digit+)?
//! identifier := [A-Za-z0-9_]+
//! ```
//!
//! Whitespace may stand before and after every token. Each function takes a
//! position and returns the tree it read with the position after it, trailing
//! whitespace included; alternatives are tried in the order written.

use crate::ast::SpecExpr;
use vstd::prelude::*;

verus! {

pub open spec fn is_ws(c: char) -> bool {
    c == ' ' || c == '\t' || c == '\n' || c == '\r'
}

pub open spec fn is_digit(c: char) -> bool {
    '0' <= c && c <= '9'
}

pub open spec fn is_word_char(c: char) -> bool {
    is_digit(c) || ('a' <= c && c <= 'z') || ('A' <= c && c <= 'Z') || c == '_'
}

/// The first position at or after `p` that does not hold whitespace.
pub open spec fn skip_ws(s: Seq<char>, p: int) -> int
    decreases s.len() - p,
{
    if 0 <= p < s.len() && is_ws(s[p]) {
        skip_ws(s, p + 1)
    } else {
        p
    }
}

/// The first position at or after `p` that does not hold a digit.
pub open spec fn skip_digits(s: Seq<char>, p: int) -> int
    decreases s.len() - p,
{
    if 0 <= p < s.len() && is_digit(s[p]) {
        skip_digits(s, p + 1)
    } else {
        p
    }
}

/// The first position at or after `p` that does not hold a word character.
pub open spec fn skip_word(s: Seq<char>, p: int) -> int
    decreases s.len() - p,
{
    if 0 <= p < s.len() && is_word_char(s[p]) {
        skip_word(s, p + 1)
    } else {
        p
    }
}

/// The text `t` stands at position `p`.
pub open spec fn sym_at(s: Seq<char>, p: int, t: Seq<char>) -> bool {
    0 <= p && p + t.len() <= s.len() && s.subrange(p, p + t.len()) == t
}

/// A position strictly after `p` and within the input.
pub open spec fn advances(s: Seq<char>, p: int, q: int) -> bool {
    p < q <= s.len()
}

pub open spec fn is_keyword(w: Seq<char>) -> bool {
    w == "sqabs"@ || w == "real"@ || w == "conj"@ || w == "neg"@
}

/// `number := digit+ ('.' digit+)?`, as its text.
pub open spec fn p_number(s: Seq<char>, p: int) -> Option<(SpecExpr, int)> {
    let d = skip_digits(s, p);
    if d == p {
        None
    } else {
        let e = if sym_at(s, d, "."@) && skip_digits(s, d + 1) > d + 1 {
            skip_digits(s, d + 1)
        } else {
            d
        };
        Some((SpecExpr::Number(s.subrange(p, e)), skip_ws(s, e)))
    }
}

/// `identifier`, as a variable.
pub open spec fn p_var(s: Seq<char>, p: int) -> Option<(SpecExpr, int)> {
    let w = skip_word(s, p);
    if w == p {
        None
    } else {
        Some((SpecExpr::Var(s.subrange(p, w)), skip_ws(s, w)))
    }
}

/// `'(' expr ')'` at `q`, the expression wrapped by `wrap`.
pub open spec fn p_parens(s: Seq<char>, p: int, q: int, name: Option<Seq<char>>) -> Option<
    (SpecExpr, int),
>
    decreases s.len() - p, 0int,
{
    if sym_at(s, q, "("@) && p <= q {
        let r0 = skip_ws(s, q + 1);
        if advances(s, p, r0) {
            match p_expr(s, r0) {
                Some((e, r)) => if sym_at(s, r, ")"@) {
                    let inner = match name {
                        Some(n) => SpecExpr::Call(n, seq![e]),
                        None => e,
                    };
                    Some((inner, skip_ws(s, r + 1)))
                } else {
                    None
                },
                None => None,
            }
        } else {
            None
        }
    } else {
        None
    }
}

/// `tight_expr`.
pub open spec fn p_tight(s: Seq<char>, p: int) -> Option<(SpecExpr, int)>
    decreases s.len() - p, 1int,
{
    let paren = p_parens(s, p, p, None);
    if paren is Some {
        paren
    } else {
        let w = skip_word(s, p);
        let call = if w > p && is_keyword(s.subrange(p, w)) {
            p_parens(s, p, skip_ws(s, w), Some(s.subrange(p, w)))
        } else {
            None
        };
        if call is Some {
            call
        } else if p_number(s, p) is Some {
            p_number(s, p)
        } else {
            p_var(s, p)
        }
    }
}

/// The operands after the first of a left-associative chain: `(op operand)*`
/// with `op` one of `ops`, each operand read by `p_tight` (`tight`) or `p_term`.
pub open spec fn p_chain(s: Seq<char>, q: int, lhs: SpecExpr, tight: bool) -> Option<(SpecExpr, int)>
    decreases s.len() - q, 2int,
{
    let ops = if tight {
        seq!["*"@, "/"@]
    } else {
        seq!["+"@, "-"@]
    };
    let first = p_chain_op(s, q, lhs, tight, ops[0]);
    if first is Some {
        first
    } else {
        let second = p_chain_op(s, q, lhs, tight, ops[1]);
        if second is Some {
            second
        } else {
            Some((lhs, q))
        }
    }
}

/// One step of a chain with the operator `op`; `None` where `op` and its operand
/// are not there.
pub open spec fn p_chain_op(s: Seq<char>, q: int, lhs: SpecExpr, tight: bool, op: Seq<char>) -> Option<
    (SpecExpr, int),
>
    decreases s.len() - q, 1int,
{
    if sym_at(s, q, op) && op.len() == 1 {
        let r0 = skip_ws(s, q + 1);
        if advances(s, q, r0) {
            let rhs = if tight {
                p_tight(s, r0)
            } else {
                p_term(s, r0)
            };
            match rhs {
                Some((e, r)) => if advances(s, q, r) {
                    p_chain(s, r, SpecExpr::Call(op, seq![lhs, e]), tight)
                } else {
                    None
                },
                None => None,
            }
        } else {
            None
        }
    } else {
        None
    }
}

/// `mul_expr`.
pub open spec fn p_term(s: Seq<char>, p: int) -> Option<(SpecExpr, int)>
    decreases s.len() - p, 3int,
{
    match p_tight(s, p) {
        Some((e, q)) => if p <= q <= s.len() {
            p_chain(s, q, e, true)
        } else {
            None
        },
        None => None,
    }
}

/// `add_expr`.
pub open spec fn p_add(s: Seq<char>, p: int) -> Option<(SpecExpr, int)>
    decreases s.len() - p, 4int,
{
    match p_term(s, p) {
        Some((e, q)) => if p <= q <= s.len() {
            p_chain(s, q, e, false)
        } else {
            None
        },
        None => None,
    }
}

/// A comparison with the operator `op` after `lhs`, which ends at `q`.
pub open spec fn p_compare(s: Seq<char>, p: int, q: int, lhs: SpecExpr, op: Seq<char>) -> Option<
    (SpecExpr, int),
>
    decreases s.len() - p, 5int,
{
    if sym_at(s, q, op) && p <= q && 1 <= op.len() {
        let r0 = skip_ws(s, q + op.len());
        if advances(s, p, r0) {
            match p_add(s, r0) {
                Some((e, r)) => Some((SpecExpr::Call(op, seq![lhs, e]), r)),
                None => None,
            }
        } else {
            None
        }
    } else {
        None
    }
}

/// `expr`.
pub open spec fn p_expr(s: Seq<char>, p: int) -> Option<(SpecExpr, int)>
    decreases s.len() - p, 6int,
{
    match p_add(s, p) {
        Some((lhs, q)) => if p <= q <= s.len() {
            let lt = p_compare(s, p, q, lhs, "<"@);
            let gt = p_compare(s, p, q, lhs, ">"@);
            let le = p_compare(s, p, q, lhs, "<="@);
            let ge = p_compare(s, p, q, lhs, ">="@);
            if lt is Some {
                lt
            } else if gt is Some {
                gt
            } else if le is Some {
                le
            } else if ge is Some {
                ge
            } else {
                Some((lhs, q))
            }
        } else {
            None
        },
        None => None,
    }
}

/// The tree of a whole input: leading whitespace, an expression, nothing after it.
pub open spec fn spec_parse(s: Seq<char>) -> Option<SpecExpr> {
    match p_expr(s, skip_ws(s, 0)) {
        Some((e, q)) => if q == s.len() {
            Some(e)
        } else {
            None
        },
        None => None,
    }
}

} // verus!
