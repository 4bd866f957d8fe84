//! The parser: source text to [`Expr`], as the grammar in `grammar` reads it.

use crate::ast::{Expr, SpecExpr};
use crate::grammar::{
    advances, is_keyword, p_add, p_chain, p_expr, p_number, p_parens, p_term, p_tight, p_var,
    skip_digits, skip_word, skip_ws, spec_parse, sym_at,
};
use vstd::prelude::*;
use vstd::string::{StrSliceExecFns, StringExecFns};

verus! {

/// A failed parse: the text, the length in bytes of the text from the furthest
/// position where a token was expected, and what was expected there.
#[derive(Debug)]
pub struct ParseErr {
    pub text: String,
    pub remaining: usize,
    pub message: String,
}

/// The furthest position where a token was expected, and the tokens expected there.
struct Failures {
    pos: usize,
    expected: Vec<&'static str>,
}

impl Failures {
    fn record(&mut self, p: usize, what: &'static str)
        ensures
            final(self).pos <= (if old(self).pos >= p { old(self).pos } else { p }),
    {
        if p > self.pos || self.expected.len() == 0 {
            self.pos = p;
            self.expected = Vec::new();
            self.expected.push(what);
        } else if p == self.pos {
            self.expected.push(what);
        }
    }

    fn message(&self) -> String {
        let mut m = String::new();
        let mut k: usize = 0;
        while k < self.expected.len()
            decreases self.expected@.len() - k,
        {
            if k > 0 {
                m.append(" | ");
            }
            m.append(self.expected[k]);
            k = k + 1;
        }
        m
    }
}

/// Whether a parse result is the grammar's.
spec fn result_is(r: Option<(Expr, usize)>, sp: Option<(SpecExpr, int)>) -> bool {
    match r {
        Some((e, q)) => sp == Some((e@, q as int)),
        None => sp is None,
    }
}

fn call1(op: String, a: Expr) -> (r: Expr)
    ensures
        r@ == SpecExpr::Call(op@, seq![a@]),
{
    let ghost av = a@;
    let args = vec![a];
    let r = Expr::Call(op, args);
    assert(r@->Call_1 =~= seq![av]);
    r
}

fn call2(op: &str, a: Expr, b: Expr) -> (r: Expr)
    ensures
        r@ == SpecExpr::Call(op@, seq![a@, b@]),
{
    let ghost av = a@;
    let ghost bv = b@;
    let args = vec![a, b];
    let r = Expr::Call(op.to_owned(), args);
    assert(r@->Call_1 =~= seq![av, bv]);
    r
}

fn is_keyword_text(w: &String) -> (r: bool)
    ensures
        r == is_keyword(w@),
{
    *w == "sqabs".to_owned() || *w == "real".to_owned() || *w == "conj".to_owned() || *w
        == "neg".to_owned()
}

struct Parser<'a> {
    input: &'a str,
    chars: Vec<char>,
    fails: Failures,
}

impl<'a> Parser<'a> {
    spec fn s(&self) -> Seq<char> {
        self.chars@
    }

    spec fn wf(&self) -> bool {
        &&& self.input@ == self.chars@
        &&& self.chars@.len() <= usize::MAX
        &&& self.fails.pos <= self.chars@.len()
    }

    /// `next` reads the same text as `self`.
    spec fn same(&self, next: &Self) -> bool {
        &&& next.wf()
        &&& next.chars@ == self.chars@
        &&& next.input == self.input
    }

    fn fail(&mut self, p: usize, what: &'static str)
        requires
            old(self).wf(),
            p <= old(self).s().len(),
        ensures
            old(self).same(final(self)),
    {
        self.fails.record(p, what);
    }

    fn skip_ws(&self, p: usize) -> (r: usize)
        requires
            p <= self.s().len(),
        ensures
            r == skip_ws(self.s(), p as int),
            p <= r <= self.s().len(),
    {
        let mut q = p;
        while q < self.chars.len() && (self.chars[q] == ' ' || self.chars[q] == '\t' || self.chars[q]
            == '\n' || self.chars[q] == '\r')
            invariant
                p <= q <= self.s().len(),
                skip_ws(self.s(), q as int) == skip_ws(self.s(), p as int),
            decreases self.s().len() - q,
        {
            q = q + 1;
        }
        q
    }

    fn skip_digits(&self, p: usize) -> (r: usize)
        requires
            p <= self.s().len(),
        ensures
            r == skip_digits(self.s(), p as int),
            p <= r <= self.s().len(),
    {
        let mut q = p;
        while q < self.chars.len() && ('0' <= self.chars[q] && self.chars[q] <= '9')
            invariant
                p <= q <= self.s().len(),
                skip_digits(self.s(), q as int) == skip_digits(self.s(), p as int),
            decreases self.s().len() - q,
        {
            q = q + 1;
        }
        q
    }

    fn skip_word(&self, p: usize) -> (r: usize)
        requires
            p <= self.s().len(),
        ensures
            r == skip_word(self.s(), p as int),
            p <= r <= self.s().len(),
    {
        let mut q = p;
        while q < self.chars.len() && (('0' <= self.chars[q] && self.chars[q] <= '9') || ('a'
            <= self.chars[q] && self.chars[q] <= 'z') || ('A' <= self.chars[q] && self.chars[q]
            <= 'Z') || self.chars[q] == '_')
            invariant
                p <= q <= self.s().len(),
                skip_word(self.s(), q as int) == skip_word(self.s(), p as int),
            decreases self.s().len() - q,
        {
            q = q + 1;
        }
        q
    }

    /// Whether `t` stands at `p`.
    fn sym_at(&self, p: usize, t: &str) -> (r: bool)
        requires
            p <= self.s().len(),
        ensures
            r == sym_at(self.s(), p as int, t@),
    {
        let n = t.unicode_len();
        let len = self.chars.len();
        if n > len - p {
            return false;
        }
        let mut k: usize = 0;
        while k < n
            invariant
                len == self.s().len(),
                n == t@.len(),
                p + n <= self.s().len(),
                k <= n,
                forall|j: int| 0 <= j < k ==> self.s()[p + j] == t@[j],
            decreases n - k,
        {
            if self.chars[p + k] != t.get_char(k) {
                assert(self.s().subrange(p as int, p + n)[k as int] != t@[k as int]);
                return false;
            }
            k = k + 1;
        }
        assert(self.s().subrange(p as int, p + n) =~= t@);
        true
    }

    fn expr_number(&mut self, p: usize) -> (r: Option<(Expr, usize)>)
        requires
            old(self).wf(),
            p <= old(self).s().len(),
        ensures
            old(self).same(final(self)),
            result_is(r, p_number(old(self).s(), p as int)),
            r matches Some((_, q)) ==> p < q <= old(self).s().len(),
    {
        let d = self.skip_digits(p);
        if d == p {
            self.fail(p, "Expected: digit");
            return None;
        }
        proof {
            reveal_strlit(".");
        }
        let e = if self.sym_at(d, ".") && self.skip_digits(d + 1) > d + 1 {
            self.skip_digits(d + 1)
        } else {
            d
        };
        let t = self.text(p, e);
        Some((Expr::Number(t), self.skip_ws(e)))
    }

    fn expr_var(&mut self, p: usize) -> (r: Option<(Expr, usize)>)
        requires
            old(self).wf(),
            p <= old(self).s().len(),
        ensures
            old(self).same(final(self)),
            result_is(r, p_var(old(self).s(), p as int)),
            r matches Some((_, q)) ==> p < q <= old(self).s().len(),
    {
        let w = self.skip_word(p);
        if w == p {
            self.fail(p, "Expected: word");
            return None;
        }
        let t = self.text(p, w);
        Some((Expr::Var(t), self.skip_ws(w)))
    }

    fn parens(&mut self, p: usize, q: usize, name: Option<String>) -> (r: Option<(Expr, usize)>)
        requires
            old(self).wf(),
            p <= q <= old(self).s().len(),
        ensures
            old(self).same(final(self)),
            result_is(
                r,
                p_parens(
                    old(self).s(),
                    p as int,
                    q as int,
                    match name {
                        Some(n) => Some(n@),
                        None => None,
                    },
                ),
            ),
            r matches Some((_, t)) ==> p < t <= old(self).s().len(),
        decreases old(self).s().len() - p, 0int,
    {
        proof {
            reveal_strlit("(");
            reveal_strlit(")");
        }
        if !self.sym_at(q, "(") {
            self.fail(q, "Expected: \"(\"");
            return None;
        }
        let r0 = self.skip_ws(q + 1);
        match self.expr(r0) {
            Some((e, r)) => {
                if self.sym_at(r, ")") {
                    let inner = match name {
                        Some(n) => call1(n, e),
                        None => e,
                    };
                    let t = self.skip_ws(r + 1);
                    Some((inner, t))
                } else {
                    self.fail(r, "Expected: \")\"");
                    None
                }
            },
            None => None,
        }
    }

    fn expr_tight(&mut self, p: usize) -> (r: Option<(Expr, usize)>)
        requires
            old(self).wf(),
            p <= old(self).s().len(),
        ensures
            old(self).same(final(self)),
            result_is(r, p_tight(old(self).s(), p as int)),
            r matches Some((_, t)) ==> p < t <= old(self).s().len(),
        decreases old(self).s().len() - p, 1int,
    {
        match self.parens(p, p, None) {
            Some(x) => {
                return Some(x);
            },
            None => {},
        }
        let w = self.skip_word(p);
        if w > p {
            let kw = self.text(p, w);
            if is_keyword_text(&kw) {
                let q = self.skip_ws(w);
                match self.parens(p, q, Some(kw)) {
                    Some(x) => {
                        return Some(x);
                    },
                    None => {},
                }
            } else {
                self.fail(p, "Expected: keyword");
            }
        }
        match self.expr_number(p) {
            Some(x) => {
                return Some(x);
            },
            None => {},
        }
        self.expr_var(p)
    }

    /// The rest of a chain of `*` and `/` (`tight`) or `+` and `-` after `lhs`.
    fn chain(&mut self, q: usize, lhs: Expr, tight: bool) -> (r: (Expr, usize))
        requires
            old(self).wf(),
            q <= old(self).s().len(),
        ensures
            old(self).same(final(self)),
            p_chain(old(self).s(), q as int, lhs@, tight) == Some((r.0@, r.1 as int)),
            q <= r.1 <= old(self).s().len(),
        decreases old(self).s().len() - q, 2int,
    {
        let (op1, op2) = if tight {
            ("*", "/")
        } else {
            ("+", "-")
        };
        proof {
            reveal_strlit("*");
            reveal_strlit("/");
            reveal_strlit("+");
            reveal_strlit("-");
        }
        if self.sym_at(q, op1) {
            let r0 = self.skip_ws(q + 1);
            let rhs = if tight {
                self.expr_tight(r0)
            } else {
                self.expr_term(r0)
            };
            match rhs {
                Some((e, r)) => {
                    let next = call2(op1, lhs, e);
                    return self.chain(r, next, tight);
                },
                None => {},
            }
        } else {
            self.fail(q, if tight { "Expected: \"*\"" } else { "Expected: \"+\"" });
        }
        if self.sym_at(q, op2) {
            let r0 = self.skip_ws(q + 1);
            let rhs = if tight {
                self.expr_tight(r0)
            } else {
                self.expr_term(r0)
            };
            match rhs {
                Some((e, r)) => {
                    let next = call2(op2, lhs, e);
                    return self.chain(r, next, tight);
                },
                None => {},
            }
        } else {
            self.fail(q, if tight { "Expected: \"/\"" } else { "Expected: \"-\"" });
        }
        (lhs, q)
    }

    fn expr_term(&mut self, p: usize) -> (r: Option<(Expr, usize)>)
        requires
            old(self).wf(),
            p <= old(self).s().len(),
        ensures
            old(self).same(final(self)),
            result_is(r, p_term(old(self).s(), p as int)),
            r matches Some((_, t)) ==> p < t <= old(self).s().len(),
        decreases old(self).s().len() - p, 3int,
    {
        match self.expr_tight(p) {
            Some((e, q)) => Some(self.chain(q, e, true)),
            None => None,
        }
    }

    fn expr_add(&mut self, p: usize) -> (r: Option<(Expr, usize)>)
        requires
            old(self).wf(),
            p <= old(self).s().len(),
        ensures
            old(self).same(final(self)),
            result_is(r, p_add(old(self).s(), p as int)),
            r matches Some((_, t)) ==> p < t <= old(self).s().len(),
        decreases old(self).s().len() - p, 4int,
    {
        match self.expr_term(p) {
            Some((e, q)) => Some(self.chain(q, e, false)),
            None => None,
        }
    }

    /// The right operand of a comparison `op` that stands at `q`.
    fn compare_rhs(&mut self, p: usize, q: usize, op: &str) -> (r: Option<(Expr, usize)>)
        requires
            old(self).wf(),
            p <= q <= old(self).s().len(),
            1 <= op@.len(),
        ensures
            old(self).same(final(self)),
            sym_at(old(self).s(), q as int, op@) ==> result_is(
                r,
                p_add(old(self).s(), skip_ws(old(self).s(), q + op@.len())),
            ),
            !sym_at(old(self).s(), q as int, op@) ==> r is None,
            sym_at(old(self).s(), q as int, op@) ==> advances(
                old(self).s(),
                p as int,
                skip_ws(old(self).s(), q + op@.len()),
            ),
            r matches Some((_, t)) ==> q < t <= old(self).s().len(),
        decreases old(self).s().len() - p, 5int,
    {
        if !self.sym_at(q, op) {
            self.fail(q, "Expected: comparison");
            return None;
        }
        let n = op.unicode_len();
        let r0 = self.skip_ws(q + n);
        self.expr_add(r0)
    }

    fn expr(&mut self, p: usize) -> (r: Option<(Expr, usize)>)
        requires
            old(self).wf(),
            p <= old(self).s().len(),
        ensures
            old(self).same(final(self)),
            result_is(r, p_expr(old(self).s(), p as int)),
            r matches Some((_, t)) ==> p < t <= old(self).s().len(),
        decreases old(self).s().len() - p, 6int,
    {
        proof {
            reveal_strlit("<");
            reveal_strlit(">");
            reveal_strlit("<=");
            reveal_strlit(">=");
        }
        match self.expr_add(p) {
            Some((lhs, q)) => {
                match self.compare_rhs(p, q, "<") {
                    Some((e, r)) => {
                        return Some((call2("<", lhs, e), r));
                    },
                    None => {},
                }
                match self.compare_rhs(p, q, ">") {
                    Some((e, r)) => {
                        return Some((call2(">", lhs, e), r));
                    },
                    None => {},
                }
                match self.compare_rhs(p, q, "<=") {
                    Some((e, r)) => {
                        return Some((call2("<=", lhs, e), r));
                    },
                    None => {},
                }
                match self.compare_rhs(p, q, ">=") {
                    Some((e, r)) => {
                        return Some((call2(">=", lhs, e), r));
                    },
                    None => {},
                }
                Some((lhs, q))
            },
            None => None,
        }
    }

    /// The characters from `a` to `b`, as a string.
    fn text(&self, a: usize, b: usize) -> (r: String)
        requires
            a <= b <= self.s().len(),
            self.input@ == self.s(),
        ensures
            r@ == self.s().subrange(a as int, b as int),
    {
        self.input.substring_char(a, b).to_owned()
    }
}

/// Parses a whole input: leading whitespace, one expression, trailing
/// whitespace, nothing else.
pub fn parse(input: &str) -> (r: Result<Expr, ParseErr>)
    ensures
        r is Ok <==> spec_parse(input@) is Some,
        r matches Ok(e) ==> spec_parse(input@) == Some(e@),
        r matches Err(err) ==> err.text@ == input@,
{
    let n = input.unicode_len();
    let mut chars: Vec<char> = Vec::new();
    let mut i: usize = 0;
    while i < n
        invariant
            n == input@.len(),
            i <= n,
            chars@ == input@.take(i as int),
        decreases n - i,
    {
        chars.push(input.get_char(i));
        i = i + 1;
        assert(chars@ =~= input@.take(i as int));
    }
    assert(chars@ =~= input@);
    let mut parser = Parser { input, chars, fails: Failures { pos: 0, expected: Vec::new() } };
    let p0 = parser.skip_ws(0);
    match parser.expr(p0) {
        Some((e, q)) => {
            if q == n {
                return Ok(e);
            }
            parser.fail(q, "Expected: end of input");
        },
        None => {},
    }
    let rest = input.substring_char(parser.fails.pos, n);
    Err(ParseErr { text: input.to_owned(), remaining: rest.len(), message: parser.fails.message() })
}

} // verus!
