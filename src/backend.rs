//! Lowering of expressions over complex numbers into the escape-time function
//! `return_thing`, optionally seeded by a Newton solver.

use crate::ast::{Expr, SpecExpr};
use crate::leb128::{sleb, uleb};
use crate::binary64::{Binary64, FOUR_BITS, HUNDRED_BITS, ONE_BITS, THREE_QUARTERS_BITS, ZERO_BITS};
use crate::dag::{
    local_get_bytes, schedule, Dag, DagCalc, DagNode, Effect, EffectType, built, chain, node_in, runs,
    spec_is_zero,
};
use crate::module_builder::{
    body_bytes, le_bytes, Local,
    BlockType, Func, ModuleBuilder, ModuleModel, ValType, exports_ok, model_ok, module_bytes,
    well_formed_module,
};
use vstd::string::StringSliceAdditionalSpecFns;
use vstd::prelude::*;

verus! {

/// Why an expression cannot be lowered.
#[derive(Clone, Copy, Debug, PartialEq, Eq, Structural)]
pub enum CompileError {
    /// A variable that the environment does not bind.
    UnknownVariable,
    /// An operator or function that the lowering does not know.
    UnknownOperator,
    /// An operator applied to the wrong number of arguments.
    Arity,
    /// A comparison where a complex value is needed.
    NotComplex,
    /// A complex value where a comparison is needed.
    NotBool,
    /// A value whose imaginary part is not the constant zero where a real one is needed.
    NotReal,
    /// An operator that the derivative mode does not define.
    NotDifferentiable,
    /// More locals than a function can index.
    TooLarge,
}

/// The lowered form of a subexpression.
#[derive(Clone, Copy, Debug)]
pub enum Structure {
    /// A comparison result, an `i32`.
    Bool(DagNode),
    /// A complex value: real part, imaginary part.
    Complex(DagNode, DagNode),
    /// A complex value and its first and second derivatives with respect to `z`,
    /// each as real part, imaginary part.
    CxDeriv([DagNode; 6]),
}

/// Every node of the structure refers into a graph of `len` computations.
pub open spec fn structure_in(s: Structure, len: nat) -> bool {
    match s {
        Structure::Bool(b) => node_in(b, len),
        Structure::Complex(x, y) => node_in(x, len) && node_in(y, len),
        Structure::CxDeriv(xs) => forall|k: int| 0 <= k < 6 ==> node_in(#[trigger] xs@[k], len),
    }
}

proof fn lemma_structure_in_mono(s: Structure, a: nat, b: nat)
    requires
        structure_in(s, a),
        a <= b,
    ensures
        structure_in(s, b),
{
}

proof fn lemma_chain_push(
    ns: Seq<Seq<DagCalc>>,
    cs: Seq<DagCalc>,
    rs: Seq<DagNode>,
    c: DagCalc,
    n: Seq<DagCalc>,
    r: DagNode,
)
    requires
        chain(ns, cs, rs),
        built(ns.last(), c, n, r),
    ensures
        chain(ns.push(n), cs.push(c), rs.push(r)),
{
    let ns2 = ns.push(n);
    let cs2 = cs.push(c);
    let rs2 = rs.push(r);
    assert forall|k: int| 0 <= k < cs2.len() implies built(ns2[k], #[trigger] cs2[k], ns2[k + 1], rs2[k]) by {
        if k < cs.len() {
            assert(cs2[k] == cs[k]);
            assert(built(ns[k], cs[k], ns[k + 1], rs[k]));
        }
    }
}

proof fn lemma_chain_runs(ns: Seq<Seq<DagCalc>>, cs: Seq<DagCalc>, rs: Seq<DagNode>)
    requires
        chain(ns, cs, rs),
    ensures
        runs(ns[0], cs, rs, ns.last()),
{
}

proof fn lemma_chain_start(n: Seq<DagCalc>)
    ensures
        chain(seq![n], Seq::empty(), Seq::empty()),
{
}

/// The steps of `a + b`: the real parts added, then the imaginary parts.
pub open spec fn add_steps(a: Structure, b: Structure) -> Seq<DagCalc> {
    seq![DagCalc::F64Add(a->Complex_0, b->Complex_0), DagCalc::F64Add(a->Complex_1, b->Complex_1)]
}

/// The steps of `a - b`, componentwise.
pub open spec fn sub_steps(a: Structure, b: Structure) -> Seq<DagCalc> {
    seq![DagCalc::F64Sub(a->Complex_0, b->Complex_0), DagCalc::F64Sub(a->Complex_1, b->Complex_1)]
}

/// The steps of `a * b`: `(x0 x1 - y0 y1, x0 y1 + x1 y0)`, where `rs` are the
/// handles of the steps.
pub open spec fn mul_steps(a: Structure, b: Structure, rs: Seq<DagNode>) -> Seq<DagCalc> {
    seq![
        DagCalc::F64Mul(a->Complex_0, b->Complex_0),
        DagCalc::F64Mul(a->Complex_0, b->Complex_1),
        DagCalc::F64Mul(b->Complex_0, a->Complex_1),
        DagCalc::F64Mul(a->Complex_1, b->Complex_1),
        DagCalc::F64Sub(rs[0], rs[3]),
        DagCalc::F64Add(rs[1], rs[2]),
    ]
}

/// The steps of `(a + bi) / (c + di)`: `((ac + bd) / (c² + d²), (bc - ad) / (c² + d²))`.
pub open spec fn div_steps(z0: Structure, z1: Structure, rs: Seq<DagNode>) -> Seq<DagCalc> {
    seq![
        DagCalc::F64Mul(z0->Complex_0, z1->Complex_0),
        DagCalc::F64Mul(z0->Complex_1, z1->Complex_1),
        DagCalc::F64Mul(z0->Complex_1, z1->Complex_0),
        DagCalc::F64Mul(z0->Complex_0, z1->Complex_1),
        DagCalc::F64Mul(z1->Complex_0, z1->Complex_0),
        DagCalc::F64Mul(z1->Complex_1, z1->Complex_1),
        DagCalc::F64Add(rs[4], rs[5]),
        DagCalc::F64Add(rs[0], rs[1]),
        DagCalc::F64Sub(rs[2], rs[3]),
        DagCalc::F64Div(rs[7], rs[6]),
        DagCalc::F64Div(rs[8], rs[6]),
    ]
}

/// The steps of `-z`, componentwise.
pub open spec fn neg_steps(z: Structure) -> Seq<DagCalc> {
    seq![DagCalc::F64Neg(z->Complex_0), DagCalc::F64Neg(z->Complex_1)]
}

/// The steps of `sqabs(z)`: `x² + y²`.
pub open spec fn sqabs_steps(z: Structure, rs: Seq<DagNode>) -> Seq<DagCalc> {
    seq![
        DagCalc::F64Mul(z->Complex_0, z->Complex_0),
        DagCalc::F64Mul(z->Complex_1, z->Complex_1),
        DagCalc::F64Add(rs[0], rs[1]),
    ]
}

/// Lowering `a + b` on `before` gives `after` and `s`.
pub open spec fn cx_add_rel(before: Seq<DagCalc>, a: Structure, b: Structure, after: Seq<DagCalc>, s: Structure) -> bool {
    &&& a is Complex
    &&& b is Complex
    &&& exists|rs: Seq<DagNode>|
        #[trigger] runs(before, add_steps(a, b), rs, after) && s == Structure::Complex(rs[0], rs[1])
}

/// Lowering `a - b`.
pub open spec fn cx_sub_rel(before: Seq<DagCalc>, a: Structure, b: Structure, after: Seq<DagCalc>, s: Structure) -> bool {
    &&& a is Complex
    &&& b is Complex
    &&& exists|rs: Seq<DagNode>|
        #[trigger] runs(before, sub_steps(a, b), rs, after) && s == Structure::Complex(rs[0], rs[1])
}

/// Lowering `a * b`.
pub open spec fn cx_mul_rel(before: Seq<DagCalc>, a: Structure, b: Structure, after: Seq<DagCalc>, s: Structure) -> bool {
    &&& a is Complex
    &&& b is Complex
    &&& exists|rs: Seq<DagNode>|
        #[trigger] runs(before, mul_steps(a, b, rs), rs, after) && s == Structure::Complex(rs[4], rs[5])
}

/// Lowering `z0 / z1`.
pub open spec fn cx_div_rel(before: Seq<DagCalc>, z0: Structure, z1: Structure, after: Seq<DagCalc>, s: Structure) -> bool {
    &&& z0 is Complex
    &&& z1 is Complex
    &&& exists|rs: Seq<DagNode>|
        #[trigger] runs(before, div_steps(z0, z1, rs), rs, after) && s == Structure::Complex(rs[9], rs[10])
}

/// Lowering `-z`.
pub open spec fn cx_neg_rel(before: Seq<DagCalc>, z: Structure, after: Seq<DagCalc>, s: Structure) -> bool {
    &&& z is Complex
    &&& exists|rs: Seq<DagNode>|
        #[trigger] runs(before, neg_steps(z), rs, after) && s == Structure::Complex(rs[0], rs[1])
}

/// The value of the first binding of `n` in the scope.
pub open spec fn lookup_spec(env: Seq<(Seq<char>, Structure)>, n: Seq<char>) -> Option<Structure>
    decreases env.len(),
{
    if env.len() == 0 {
        None
    } else if env[0].0 == n {
        Some(env[0].1)
    } else {
        lookup_spec(env.drop_first(), n)
    }
}

/// A complex value whose imaginary part is the constant zero.
pub open spec fn is_real(s: Structure) -> bool {
    s matches Structure::Complex(_, y) && spec_is_zero(y)
}

/// The step of a comparison of `a` with `b`.
pub open spec fn compare_step(o: Op, a: DagNode, b: DagNode) -> DagCalc {
    match o {
        Op::Lt => DagCalc::F64Lt(a, b),
        Op::Gt => DagCalc::F64Gt(a, b),
        Op::Le => DagCalc::F64Le(a, b),
        _ => DagCalc::F64Ge(a, b),
    }
}

/// Lowering the operator `o` on the lowered arguments `ss`, on the graph
/// `before`, gives the graph `after` and the value `s`.
pub open spec fn apply_rel(o: Op, ss: Seq<Structure>, before: Seq<DagCalc>, after: Seq<DagCalc>, s: Structure) -> bool {
    match o {
        Op::Add => cx_add_rel(before, ss[0], ss[1], after, s),
        Op::Sub => cx_sub_rel(before, ss[0], ss[1], after, s),
        Op::Mul => cx_mul_rel(before, ss[0], ss[1], after, s),
        Op::Div => cx_div_rel(before, ss[0], ss[1], after, s),
        Op::Neg => cx_neg_rel(before, ss[0], after, s),
        Op::Sqabs => ss[0] is Complex && exists|rs: Seq<DagNode>|
            #[trigger] runs(before, sqabs_steps(ss[0], rs), rs, after) && s == Structure::Complex(
                rs[2],
                DagNode::F64(ZERO_BITS),
            ),
        Op::Real => ss[0] is Complex && after == before && s == Structure::Complex(
            ss[0]->Complex_0,
            DagNode::F64(ZERO_BITS),
        ),
        Op::Conj => ss[0] is Complex && exists|rs: Seq<DagNode>|
            #[trigger] runs(before, seq![DagCalc::F64Neg(ss[0]->Complex_1)], rs, after) && s
                == Structure::Complex(ss[0]->Complex_0, rs[0]),
        _ => is_real(ss[0]) && is_real(ss[1]) && exists|rs: Seq<DagNode>|
            #[trigger] runs(
                before,
                seq![compare_step(o, ss[0]->Complex_0, ss[1]->Complex_0)],
                rs,
                after,
            ) && s == Structure::Bool(rs[0]),
    }
}

/// Part `k` of a value with its derivatives: the value, the first or the second derivative.
pub open spec fn dpart(s: Structure, k: int) -> Structure {
    Structure::Complex(s->CxDeriv_0@[2 * k], s->CxDeriv_0@[2 * k + 1])
}

/// `s` holds the three complex values `zs`, in order.
pub open spec fn deriv_parts(s: Structure, zs: Seq<Structure>) -> bool {
    &&& zs.len() == 3
    &&& s matches Structure::CxDeriv(xs) && xs@ == seq![
        zs[0]->Complex_0,
        zs[0]->Complex_1,
        zs[1]->Complex_0,
        zs[1]->Complex_1,
        zs[2]->Complex_0,
        zs[2]->Complex_1,
    ]
}

/// Lowering the operator `o` in the derivative mode: `+`, `-` and `neg` act on
/// the value and both derivatives; `*` follows the product rule,
/// `(a, b, c)(d, e, f) = (ad, ae + bd, cd + (2be + af))` with `2be` as `be + be`.
pub open spec fn dapply_rel(o: Op, ss: Seq<Structure>, before: Seq<DagCalc>, after: Seq<DagCalc>, s: Structure) -> bool {
    match o {
        Op::Add | Op::Sub | Op::Neg => {
            &&& ss[0] is CxDeriv
            &&& o != Op::Neg ==> ss[1] is CxDeriv
            &&& exists|ms: Seq<Seq<DagCalc>>, zs: Seq<Structure>|
                #[trigger] parts_rel(o, ss, ms, zs) && ms[0] == before && ms[3] == after && deriv_parts(s, zs)
        },
        Op::Mul => {
            &&& ss[0] is CxDeriv
            &&& ss[1] is CxDeriv
            &&& exists|ms: Seq<Seq<DagCalc>>, zs: Seq<Structure>|
                #[trigger] product_rule(ss[0], ss[1], ms, zs) && ms[0] == before && ms[10] == after
                    && deriv_parts(s, seq![zs[0], zs[6], zs[9]])
        },
        _ => false,
    }
}

/// The three parts of `+`, `-` or `neg` in the derivative mode, one after another.
pub open spec fn parts_rel(o: Op, ss: Seq<Structure>, ms: Seq<Seq<DagCalc>>, zs: Seq<Structure>) -> bool {
    &&& ms.len() == 4
    &&& zs.len() == 3
    &&& forall|k: int|
        0 <= k < 3 ==> #[trigger] part_rel(o, ms[k], dpart(ss[0], k), dpart(ss[1], k), ms[k + 1], zs[k])
}

/// One part of `+`, `-` or `neg` in the derivative mode.
pub open spec fn part_rel(o: Op, before: Seq<DagCalc>, a: Structure, b: Structure, after: Seq<DagCalc>, s: Structure) -> bool {
    match o {
        Op::Add => cx_add_rel(before, a, b, after, s),
        Op::Sub => cx_sub_rel(before, a, b, after, s),
        _ => cx_neg_rel(before, a, after, s),
    }
}

/// The ten steps of the product rule on `x = (a, b, c)` and `y = (d, e, f)`:
/// `ad`, `ae`, `bd`, `cd`, `be`, `af`, `ae + bd`, `be + be`, `2be + af`, `cd + (2be + af)`.
pub open spec fn product_rule(x: Structure, y: Structure, ms: Seq<Seq<DagCalc>>, zs: Seq<Structure>) -> bool {
    let (a, b, c) = (dpart(x, 0), dpart(x, 1), dpart(x, 2));
    let (d, e, f) = (dpart(y, 0), dpart(y, 1), dpart(y, 2));
    &&& ms.len() == 11
    &&& zs.len() == 10
    &&& cx_mul_rel(ms[0], a, d, ms[1], zs[0])
    &&& cx_mul_rel(ms[1], a, e, ms[2], zs[1])
    &&& cx_mul_rel(ms[2], b, d, ms[3], zs[2])
    &&& cx_mul_rel(ms[3], c, d, ms[4], zs[3])
    &&& cx_mul_rel(ms[4], b, e, ms[5], zs[4])
    &&& cx_mul_rel(ms[5], a, f, ms[6], zs[5])
    &&& cx_add_rel(ms[6], zs[1], zs[2], ms[7], zs[6])
    &&& cx_add_rel(ms[7], zs[4], zs[4], ms[8], zs[7])
    &&& cx_add_rel(ms[8], zs[7], zs[5], ms[9], zs[8])
    &&& cx_add_rel(ms[9], zs[3], zs[8], ms[10], zs[9])
}

/// `ns` and `ss` fit the arguments of the call `e`: one more graph than
/// arguments, one value per argument.
pub open spec fn arg_shape(e: SpecExpr, ns: Seq<Seq<DagCalc>>, ss: Seq<Structure>) -> bool {
    &&& e is Call
    &&& ns.len() == e->Call_1.len() + 1
    &&& ss.len() == e->Call_1.len()
}

/// Lowering `e` in the scope `env`, on the graph `before`, gives the graph
/// `after` and the value `s`: a literal is a constant (its bits from the host)
/// with zero imaginary part, and zero derivatives in the derivative mode; a
/// name is its first binding; a call lowers its arguments in order, then
/// applies its operator. Nothing else lowers: an unknown name or operator, a
/// wrong number of arguments, a comparison where a complex value is needed, a
/// comparison of a value that is not real, and in the derivative mode any
/// operator but `+`, `-`, `*` and `neg`.
pub open spec fn lowers(
    env: Seq<(Seq<char>, Structure)>,
    deriv: bool,
    before: Seq<DagCalc>,
    e: SpecExpr,
    after: Seq<DagCalc>,
    s: Structure,
) -> bool
    decreases e,
{
    match e {
        SpecExpr::Number(_) => after == before && if deriv {
            s matches Structure::CxDeriv(xs) && xs@[0] is F64 && xs@.subrange(1, 6) == seq![
                DagNode::F64(ZERO_BITS),
                DagNode::F64(ZERO_BITS),
                DagNode::F64(ZERO_BITS),
                DagNode::F64(ZERO_BITS),
                DagNode::F64(ZERO_BITS),
            ]
        } else {
            s matches Structure::Complex(x, y) && x is F64 && y == DagNode::F64(ZERO_BITS)
        },
        SpecExpr::Var(n) => after == before && lookup_spec(env, n) == Some(s),
        SpecExpr::Call(op, args) => match op_of(op) {
            Some(o) => args.len() == op_arity(o) && exists|ns: Seq<Seq<DagCalc>>, ss: Seq<Structure>|
                #[trigger] arg_shape(e, ns, ss) && ns[0] == before && (forall|k: int|
                    0 <= k < args.len() ==> lowers(env, deriv, ns[k], args[k], ns[k + 1], #[trigger] ss[k]))
                    && if deriv {
                    dapply_rel(o, ss, ns[args.len() as int], after, s)
                } else {
                    apply_rel(o, ss, ns[args.len() as int], after, s)
                },
            None => false,
        },
    }
}

/// A call lowers by its arguments and its operator.
proof fn lemma_lowers_call(
    env: Seq<(Seq<char>, Structure)>,
    deriv: bool,
    before: Seq<DagCalc>,
    e: SpecExpr,
    after: Seq<DagCalc>,
    s: Structure,
    o: Op,
    ns: Seq<Seq<DagCalc>>,
    ss: Seq<Structure>,
)
    requires
        e is Call,
        op_of(e->Call_0) == Some(o),
        e->Call_1.len() == op_arity(o),
        arg_shape(e, ns, ss),
        forall|k: int| 0 <= k < e->Call_1.len() ==> lowers(env, deriv, ns[k], e->Call_1[k], ns[k + 1], #[trigger] ss[k]),
        ns[0] == before,
        deriv ==> dapply_rel(o, ss, ns[e->Call_1.len() as int], after, s),
        !deriv ==> apply_rel(o, ss, ns[e->Call_1.len() as int], after, s),
    ensures
        lowers(env, deriv, before, e, after, s),
{
}

/// Every name of `e` is in `names`, and every operator is known and has its
/// number of arguments.
pub open spec fn known_expr(e: SpecExpr, names: Seq<Seq<char>>) -> bool
    decreases e,
{
    match e {
        SpecExpr::Number(_) => true,
        SpecExpr::Var(n) => names.contains(n),
        SpecExpr::Call(op, args) => match op_of(op) {
            Some(o) => args.len() == op_arity(o) && forall|k: int|
                0 <= k < args.len() ==> known_expr(#[trigger] args[k], names),
            None => false,
        },
    }
}

/// The names of a scope.
pub open spec fn scope_names(env: Seq<(Seq<char>, Structure)>) -> Seq<Seq<char>> {
    env.map_values(|b: (Seq<char>, Structure)| b.0)
}

proof fn lemma_lookup_found(env: Seq<(Seq<char>, Structure)>, n: Seq<char>)
    requires
        lookup_spec(env, n) is Some,
    ensures
        scope_names(env).contains(n),
    decreases env.len(),
{
    if env[0].0 == n {
        assert(scope_names(env)[0] == n);
    } else {
        lemma_lookup_found(env.drop_first(), n);
        let k = choose|k: int| 0 <= k < scope_names(env.drop_first()).len() && scope_names(env.drop_first())[k] == n;
        assert(scope_names(env)[k + 1] == n);
    }
}

/// What lowers has a known shape: its names are bound and its operators known,
/// with their numbers of arguments; in the derivative mode its operators are
/// `+`, `-`, `*` and `neg` only. So an unbound name, an unknown operator, a
/// wrong number of arguments, and in the derivative mode `/` or any other
/// operator, anywhere in `e`, make lowering fail.
pub proof fn lemma_lowers_shape(
    env: Seq<(Seq<char>, Structure)>,
    deriv: bool,
    before: Seq<DagCalc>,
    e: SpecExpr,
    after: Seq<DagCalc>,
    s: Structure,
)
    requires
        lowers(env, deriv, before, e, after, s),
    ensures
        known_expr(e, scope_names(env)),
        deriv ==> deriv_expr(e, scope_names(env)),
    decreases e,
{
    match e {
        SpecExpr::Number(_) => {},
        SpecExpr::Var(n) => {
            lemma_lookup_found(env, n);
        },
        SpecExpr::Call(op, args) => {
            let o = op_of(op)->Some_0;
            let (ns, ss) = choose|ns: Seq<Seq<DagCalc>>, ss: Seq<Structure>|
                #[trigger] arg_shape(e, ns, ss) && ns[0] == before && (forall|k: int|
                    0 <= k < args.len() ==> lowers(env, deriv, ns[k], args[k], ns[k + 1], #[trigger] ss[k]))
                    && if deriv {
                    dapply_rel(o, ss, ns[args.len() as int], after, s)
                } else {
                    apply_rel(o, ss, ns[args.len() as int], after, s)
                };
            assert forall|k: int| 0 <= k < args.len() implies known_expr(#[trigger] args[k], scope_names(env))
                && (deriv ==> deriv_expr(args[k], scope_names(env))) by {
                assert(lowers(env, deriv, ns[k], args[k], ns[k + 1], ss[k]));
                lemma_lowers_shape(env, deriv, ns[k], args[k], ns[k + 1], ss[k]);
            }
        },
    }
}

/// The number of literals, names and calls in `e`.
pub open spec fn expr_size(e: SpecExpr) -> nat
    decreases e, 1nat, 0nat,
{
    match e {
        SpecExpr::Call(_, args) => 1 + args_size(e, args.len()),
        _ => 1,
    }
}

/// The sizes of the first `k` arguments of the call `e`, added.
pub open spec fn args_size(e: SpecExpr, k: nat) -> nat
    decreases e, 0nat, k,
{
    match e {
        SpecExpr::Call(_, args) => if k == 0 || k > args.len() {
            0
        } else {
            args_size(e, (k - 1) as nat) + expr_size(args[k - 1])
        },
        _ => 0,
    }
}

/// The size of `initz`, where there is one.
pub open spec fn initz_size(initz: Option<&Expr>) -> nat {
    match initz {
        Some(e) => expr_size(e@),
        None => 0,
    }
}

/// The largest total size of source expressions that the backend compiles
/// without running out of local indices: a machine limit.
pub open spec fn max_source_size() -> nat {
    usize::MAX as nat / 64
}

proof fn lemma_built_len(before: Seq<DagCalc>, c: DagCalc, after: Seq<DagCalc>, r: DagNode)
    requires
        built(before, c, after, r),
    ensures
        after.len() <= before.len() + 1,
{
}

proof fn lemma_chain_len(ns: Seq<Seq<DagCalc>>, cs: Seq<DagCalc>, rs: Seq<DagNode>, k: int)
    requires
        chain(ns, cs, rs),
        0 <= k <= cs.len(),
    ensures
        ns[k].len() <= ns[0].len() + k,
    decreases k,
{
    if k > 0 {
        lemma_chain_len(ns, cs, rs, k - 1);
        assert(built(ns[k - 1], cs[k - 1], ns[k], rs[k - 1]));
        lemma_built_len(ns[k - 1], cs[k - 1], ns[k], rs[k - 1]);
    }
}

proof fn lemma_runs_len(before: Seq<DagCalc>, cs: Seq<DagCalc>, rs: Seq<DagNode>, after: Seq<DagCalc>)
    requires
        runs(before, cs, rs, after),
    ensures
        after.len() <= before.len() + cs.len(),
{
    let ns = choose|ns: Seq<Seq<DagCalc>>| #[trigger] chain(ns, cs, rs) && ns[0] == before && ns[cs.len() as int] == after;
    lemma_chain_len(ns, cs, rs, cs.len() as int);
}

proof fn lemma_cx_len(o: Op, before: Seq<DagCalc>, a: Structure, b: Structure, after: Seq<DagCalc>, s: Structure)
    requires
        o == Op::Add ==> cx_add_rel(before, a, b, after, s),
        o == Op::Sub ==> cx_sub_rel(before, a, b, after, s),
        o == Op::Mul ==> cx_mul_rel(before, a, b, after, s),
        o == Op::Div ==> cx_div_rel(before, a, b, after, s),
        o == Op::Neg ==> cx_neg_rel(before, a, after, s),
        o == Op::Add || o == Op::Sub || o == Op::Mul || o == Op::Div || o == Op::Neg,
    ensures
        after.len() <= before.len() + 11,
{
    if o == Op::Add {
        let rs = choose|rs: Seq<DagNode>| #[trigger] runs(before, add_steps(a, b), rs, after) && s == Structure::Complex(rs[0], rs[1]);
        lemma_runs_len(before, add_steps(a, b), rs, after);
    } else if o == Op::Sub {
        let rs = choose|rs: Seq<DagNode>| #[trigger] runs(before, sub_steps(a, b), rs, after) && s == Structure::Complex(rs[0], rs[1]);
        lemma_runs_len(before, sub_steps(a, b), rs, after);
    } else if o == Op::Mul {
        let rs = choose|rs: Seq<DagNode>| #[trigger] runs(before, mul_steps(a, b, rs), rs, after) && s == Structure::Complex(rs[4], rs[5]);
        lemma_runs_len(before, mul_steps(a, b, rs), rs, after);
    } else if o == Op::Div {
        let rs = choose|rs: Seq<DagNode>| #[trigger] runs(before, div_steps(a, b, rs), rs, after) && s == Structure::Complex(rs[9], rs[10]);
        lemma_runs_len(before, div_steps(a, b, rs), rs, after);
    } else {
        let rs = choose|rs: Seq<DagNode>| #[trigger] runs(before, neg_steps(a), rs, after) && s == Structure::Complex(rs[0], rs[1]);
        lemma_runs_len(before, neg_steps(a), rs, after);
    }
}

proof fn lemma_apply_len(o: Op, ss: Seq<Structure>, before: Seq<DagCalc>, after: Seq<DagCalc>, s: Structure)
    requires
        apply_rel(o, ss, before, after, s),
    ensures
        after.len() <= before.len() + 11,
{
    match o {
        Op::Add | Op::Sub | Op::Mul | Op::Div | Op::Neg => {
            lemma_cx_len(o, before, ss[0], ss[1], after, s);
        },
        Op::Sqabs => {
            let rs = choose|rs: Seq<DagNode>| #[trigger] runs(before, sqabs_steps(ss[0], rs), rs, after) && s == Structure::Complex(rs[2], DagNode::F64(ZERO_BITS));
            lemma_runs_len(before, sqabs_steps(ss[0], rs), rs, after);
        },
        Op::Real => {},
        Op::Conj => {
            let rs = choose|rs: Seq<DagNode>| #[trigger] runs(before, seq![DagCalc::F64Neg(ss[0]->Complex_1)], rs, after) && s == Structure::Complex(ss[0]->Complex_0, rs[0]);
            lemma_runs_len(before, seq![DagCalc::F64Neg(ss[0]->Complex_1)], rs, after);
        },
        _ => {
            let rs = choose|rs: Seq<DagNode>| #[trigger] runs(before, seq![compare_step(o, ss[0]->Complex_0, ss[1]->Complex_0)], rs, after) && s == Structure::Bool(rs[0]);
            lemma_runs_len(before, seq![compare_step(o, ss[0]->Complex_0, ss[1]->Complex_0)], rs, after);
        },
    }
}

proof fn lemma_dlinear_len(o: Op, ss: Seq<Structure>, before: Seq<DagCalc>, after: Seq<DagCalc>, s: Structure)
    requires
        o == Op::Add || o == Op::Sub || o == Op::Neg,
        dapply_rel(o, ss, before, after, s),
    ensures
        after.len() <= before.len() + 44,
{
    let (ms, zs) = choose|ms: Seq<Seq<DagCalc>>, zs: Seq<Structure>| #[trigger] parts_rel(o, ss, ms, zs) && ms[0] == before && ms[3] == after && deriv_parts(s, zs);
    assert(part_rel(o, ms[0], dpart(ss[0], 0), dpart(ss[1], 0), ms[1], zs[0]));
    lemma_cx_len(o, ms[0], dpart(ss[0], 0), dpart(ss[1], 0), ms[1], zs[0]);
    assert(part_rel(o, ms[1], dpart(ss[0], 1), dpart(ss[1], 1), ms[2], zs[1]));
    lemma_cx_len(o, ms[1], dpart(ss[0], 1), dpart(ss[1], 1), ms[2], zs[1]);
    assert(part_rel(o, ms[2], dpart(ss[0], 2), dpart(ss[1], 2), ms[3], zs[2]));
    lemma_cx_len(o, ms[2], dpart(ss[0], 2), dpart(ss[1], 2), ms[3], zs[2]);
}

proof fn lemma_mul_len(before: Seq<DagCalc>, a: Structure, b: Structure, after: Seq<DagCalc>, s: Structure)
    requires
        cx_mul_rel(before, a, b, after, s),
    ensures
        after.len() <= before.len() + 6,
{
    let rs = choose|rs: Seq<DagNode>| #[trigger] runs(before, mul_steps(a, b, rs), rs, after) && s == Structure::Complex(rs[4], rs[5]);
    lemma_runs_len(before, mul_steps(a, b, rs), rs, after);
}

proof fn lemma_add_len(before: Seq<DagCalc>, a: Structure, b: Structure, after: Seq<DagCalc>, s: Structure)
    requires
        cx_add_rel(before, a, b, after, s),
    ensures
        after.len() <= before.len() + 2,
{
    let rs = choose|rs: Seq<DagNode>| #[trigger] runs(before, add_steps(a, b), rs, after) && s == Structure::Complex(rs[0], rs[1]);
    lemma_runs_len(before, add_steps(a, b), rs, after);
}

proof fn lemma_product_rule_len(x: Structure, y: Structure, ms: Seq<Seq<DagCalc>>, zs: Seq<Structure>)
    requires
        product_rule(x, y, ms, zs),
    ensures
        ms[10].len() <= ms[0].len() + 44,
{
    let (a, b, c) = (dpart(x, 0), dpart(x, 1), dpart(x, 2));
    let (d, e, f) = (dpart(y, 0), dpart(y, 1), dpart(y, 2));
    lemma_mul_len(ms[0], a, d, ms[1], zs[0]);
    lemma_mul_len(ms[1], a, e, ms[2], zs[1]);
    lemma_mul_len(ms[2], b, d, ms[3], zs[2]);
    lemma_mul_len(ms[3], c, d, ms[4], zs[3]);
    lemma_mul_len(ms[4], b, e, ms[5], zs[4]);
    lemma_mul_len(ms[5], a, f, ms[6], zs[5]);
    lemma_add_len(ms[6], zs[1], zs[2], ms[7], zs[6]);
    lemma_add_len(ms[7], zs[4], zs[4], ms[8], zs[7]);
    lemma_add_len(ms[8], zs[7], zs[5], ms[9], zs[8]);
    lemma_add_len(ms[9], zs[3], zs[8], ms[10], zs[9]);
}

proof fn lemma_dproduct_len(ss: Seq<Structure>, before: Seq<DagCalc>, after: Seq<DagCalc>, s: Structure)
    requires
        dapply_rel(Op::Mul, ss, before, after, s),
    ensures
        after.len() <= before.len() + 44,
{
    let (ms, zs) = choose|ms: Seq<Seq<DagCalc>>, zs: Seq<Structure>| #[trigger] product_rule(ss[0], ss[1], ms, zs) && ms[0] == before && ms[10] == after && deriv_parts(s, seq![zs[0], zs[6], zs[9]]);
    lemma_product_rule_len(ss[0], ss[1], ms, zs);
}

proof fn lemma_dapply_len(o: Op, ss: Seq<Structure>, before: Seq<DagCalc>, after: Seq<DagCalc>, s: Structure)
    requires
        dapply_rel(o, ss, before, after, s),
    ensures
        after.len() <= before.len() + 44,
{
    match o {
        Op::Add | Op::Sub | Op::Neg => lemma_dlinear_len(o, ss, before, after, s),
        Op::Mul => lemma_dproduct_len(ss, before, after, s),
        _ => {},
    }
}

/// Lowering `e` adds at most 44 computations for each literal, name or call of `e`.
pub proof fn lemma_lowers_size(
    env: Seq<(Seq<char>, Structure)>,
    deriv: bool,
    before: Seq<DagCalc>,
    e: SpecExpr,
    after: Seq<DagCalc>,
    s: Structure,
)
    requires
        lowers(env, deriv, before, e, after, s),
    ensures
        after.len() <= before.len() + 44 * expr_size(e),
    decreases e,
{
    if let SpecExpr::Call(op, args) = e {
        let o = op_of(op)->Some_0;
        let (ns, ss) = choose|ns: Seq<Seq<DagCalc>>, ss: Seq<Structure>|
            #[trigger] arg_shape(e, ns, ss) && ns[0] == before && (forall|k: int|
                0 <= k < args.len() ==> lowers(env, deriv, ns[k], args[k], ns[k + 1], #[trigger] ss[k]))
                && if deriv {
                dapply_rel(o, ss, ns[args.len() as int], after, s)
            } else {
                apply_rel(o, ss, ns[args.len() as int], after, s)
            };
        lemma_args_size(env, deriv, e, ns, ss, args.len() as int);
        if deriv {
            lemma_dapply_len(o, ss, ns[args.len() as int], after, s);
        } else {
            lemma_apply_len(o, ss, ns[args.len() as int], after, s);
        }
    }
}

proof fn lemma_args_size(
    env: Seq<(Seq<char>, Structure)>,
    deriv: bool,
    e: SpecExpr,
    ns: Seq<Seq<DagCalc>>,
    ss: Seq<Structure>,
    k: int,
)
    requires
        e is Call,
        arg_shape(e, ns, ss),
        forall|j: int| 0 <= j < e->Call_1.len() ==> lowers(env, deriv, ns[j], e->Call_1[j], ns[j + 1], #[trigger] ss[j]),
        0 <= k <= e->Call_1.len(),
    ensures
        ns[k].len() <= ns[0].len() + 44 * args_size(e, k as nat),
    decreases e, k,
{
    if k > 0 {
        lemma_args_size(env, deriv, e, ns, ss, k - 1);
        assert(lowers(env, deriv, ns[k - 1], e->Call_1[k - 1], ns[k], ss[k - 1]));
        lemma_lowers_size(env, deriv, ns[k - 1], e->Call_1[k - 1], ns[k], ss[k - 1]);
    }
}

impl Structure {
    /// The real part of a complex value.
    pub fn cx(&self) -> (r: Result<DagNode, CompileError>)
        ensures
            r matches Ok(x) ==> *self matches Structure::Complex(x0, _) && x == x0,
            r is Err <==> !(self is Complex),
            r matches Err(e) ==> e == CompileError::NotComplex,
    {
        match self {
            Structure::Complex(x, _) => Ok(*x),
            _ => Err(CompileError::NotComplex),
        }
    }

    /// The imaginary part of a complex value.
    pub fn cy(&self) -> (r: Result<DagNode, CompileError>)
        ensures
            r matches Ok(y) ==> *self matches Structure::Complex(_, y0) && y == y0,
            r is Err <==> !(self is Complex),
            r matches Err(e) ==> e == CompileError::NotComplex,
    {
        match self {
            Structure::Complex(_, y) => Ok(*y),
            _ => Err(CompileError::NotComplex),
        }
    }

    /// The real part of a complex value whose imaginary part is the constant zero.
    pub fn as_real_f64(&self) -> (r: Result<DagNode, CompileError>)
        ensures
            r matches Ok(x) ==> (*self matches Structure::Complex(x0, y0) && x == x0 && spec_is_zero(
                y0,
            )),
            !(self is Complex) ==> r == Err::<DagNode, CompileError>(CompileError::NotComplex),
            (*self matches Structure::Complex(_, y0) && spec_is_zero(y0)) ==> r is Ok,
            (*self matches Structure::Complex(_, y0) && !spec_is_zero(y0)) ==> r == Err::<
                DagNode,
                CompileError,
            >(CompileError::NotReal),
    {
        let y = self.cy()?;
        if !y.is_const_zero() {
            return Err(CompileError::NotReal);
        }
        self.cx()
    }

    /// The node of a comparison.
    pub fn boolean(&self) -> (r: Result<DagNode, CompileError>)
        ensures
            r matches Ok(b) ==> *self == Structure::Bool(b),
            r is Err <==> !(self is Bool),
            r matches Err(e) ==> e == CompileError::NotBool,
    {
        match self {
            Structure::Bool(b) => Ok(*b),
            _ => Err(CompileError::NotBool),
        }
    }

    /// The value and its two derivatives, each as a complex value.
    pub fn derivs(&self) -> (r: Result<[Structure; 3], CompileError>)
        ensures
            r matches Ok(ds) ==> (*self matches Structure::CxDeriv(xs) && ds@ == seq![
                Structure::Complex(xs@[0], xs@[1]),
                Structure::Complex(xs@[2], xs@[3]),
                Structure::Complex(xs@[4], xs@[5]),
            ]),
            r is Err <==> !(self is CxDeriv),
            r matches Err(e) ==> e == CompileError::NotComplex,
    {
        match self {
            Structure::CxDeriv(xs) => {
                let ds = [
                    Structure::Complex(xs[0], xs[1]),
                    Structure::Complex(xs[2], xs[3]),
                    Structure::Complex(xs[4], xs[5]),
                ];
                assert(ds@ =~= seq![
                    Structure::Complex(xs@[0], xs@[1]),
                    Structure::Complex(xs@[2], xs@[3]),
                    Structure::Complex(xs@[4], xs@[5]),
                ]);
                Ok(ds)
            },
            _ => Err(CompileError::NotComplex),
        }
    }

    /// A value with its derivatives, from three complex values.
    pub fn deriv(d0: Structure, d1: Structure, d2: Structure) -> (r: Result<Structure, CompileError>)
        ensures
            r matches Ok(s) ==> (d0 matches Structure::Complex(x0, y0) && d1 matches Structure::Complex(
                x1,
                y1,
            ) && d2 matches Structure::Complex(x2, y2) && s matches Structure::CxDeriv(xs) && xs@
                == seq![x0, y0, x1, y1, x2, y2]),
            r is Err <==> !(d0 is Complex && d1 is Complex && d2 is Complex),
    {
        let xs = [d0.cx()?, d0.cy()?, d1.cx()?, d1.cy()?, d2.cx()?, d2.cy()?];
        assert(xs@ =~= seq![xs[0], xs[1], xs[2], xs[3], xs[4], xs[5]]);
        Ok(Structure::CxDeriv(xs))
    }
}

/// The operators of the language.
#[derive(Clone, Copy, Debug, PartialEq, Eq, Structural)]
pub enum Op {
    Add,
    Sub,
    Mul,
    Div,
    Neg,
    Sqabs,
    Real,
    Conj,
    Lt,
    Gt,
    Le,
    Ge,
}

/// The number of arguments an operator takes.
pub open spec fn op_arity(op: Op) -> nat {
    match op {
        Op::Neg | Op::Sqabs | Op::Real | Op::Conj => 1,
        _ => 2,
    }
}

/// The operator named `n`, the names tried in this order.
pub open spec fn op_of(n: Seq<char>) -> Option<Op> {
    if n == "+"@ {
        Some(Op::Add)
    } else if n == "-"@ {
        Some(Op::Sub)
    } else if n == "*"@ {
        Some(Op::Mul)
    } else if n == "/"@ {
        Some(Op::Div)
    } else if n == "neg"@ {
        Some(Op::Neg)
    } else if n == "sqabs"@ {
        Some(Op::Sqabs)
    } else if n == "real"@ {
        Some(Op::Real)
    } else if n == "conj"@ {
        Some(Op::Conj)
    } else if n == "<"@ {
        Some(Op::Lt)
    } else if n == ">"@ {
        Some(Op::Gt)
    } else if n == "<="@ {
        Some(Op::Le)
    } else if n == ">="@ {
        Some(Op::Ge)
    } else {
        None
    }
}

pub open spec fn is_comparison(op: Op) -> bool {
    op == Op::Lt || op == Op::Gt || op == Op::Le || op == Op::Ge
}

/// An expression that lowers to a complex value in a scope binding `names` to
/// complex values: known names, and known operators other than comparisons,
/// each with its number of arguments.
pub open spec fn complex_expr(e: SpecExpr, names: Seq<Seq<char>>) -> bool
    decreases e,
{
    match e {
        SpecExpr::Number(_) => true,
        SpecExpr::Var(n) => names.contains(n),
        SpecExpr::Call(op, args) => match op_of(op) {
            Some(o) => !is_comparison(o) && args.len() == op_arity(o) && forall|k: int|
                0 <= k < args.len() ==> complex_expr(#[trigger] args[k], names),
            None => false,
        },
    }
}

/// An expression that lowers to a complex value whose imaginary part is the
/// constant zero: a literal, or `sqabs` or `real` of a complex expression.
pub open spec fn real_expr(e: SpecExpr, names: Seq<Seq<char>>) -> bool {
    match e {
        SpecExpr::Number(_) => true,
        SpecExpr::Call(op, args) => (op_of(op) == Some(Op::Sqabs) || op_of(op) == Some(Op::Real))
            && args.len() == 1 && complex_expr(args[0], names),
        _ => false,
    }
}

/// The kind of value a complex expression lowers to: a complex value, whose
/// imaginary part is the constant zero for a real expression.
pub open spec fn complex_result(e: SpecExpr, names: Seq<Seq<char>>, s: Structure) -> bool {
    &&& s is Complex
    &&& real_expr(e, names) ==> (s matches Structure::Complex(_, y) && spec_is_zero(y))
}

proof fn lemma_real_is_complex(e: SpecExpr, names: Seq<Seq<char>>)
    requires
        real_expr(e, names),
    ensures
        complex_expr(e, names),
{
    if let SpecExpr::Call(op, args) = e {
        assert(args[0] == args[0]);
    }
}

/// A comparison of two real expressions.
pub open spec fn compare_expr(e: SpecExpr, names: Seq<Seq<char>>) -> bool {
    match e {
        SpecExpr::Call(op, args) => match op_of(op) {
            Some(o) => is_comparison(o) && args.len() == 2 && real_expr(args[0], names) && real_expr(
                args[1],
                names,
            ),
            None => false,
        },
        _ => false,
    }
}

/// An expression that the derivative mode lowers: literals, names of `names`,
/// and `+`, `-`, `*`, `neg`.
pub open spec fn deriv_expr(e: SpecExpr, names: Seq<Seq<char>>) -> bool
    decreases e,
{
    match e {
        SpecExpr::Number(_) => true,
        SpecExpr::Var(n) => names.contains(n),
        SpecExpr::Call(op, args) => match op_of(op) {
            Some(o) => (o == Op::Add || o == Op::Sub || o == Op::Mul || o == Op::Neg) && args.len()
                == op_arity(o) && forall|k: int|
                0 <= k < args.len() ==> deriv_expr(#[trigger] args[k], names),
            None => false,
        },
    }
}

fn named(f: &String, name: &str) -> (r: bool)
    ensures
        r == (f@ == name@),
{
    let owned = name.to_owned();
    *f == owned
}

/// The operator named `f`, if there is one.
fn classify(f: &String) -> (r: Option<Op>)
    ensures
        r == op_of(f@),
{
    if named(f, "+") {
        Some(Op::Add)
    } else if named(f, "-") {
        Some(Op::Sub)
    } else if named(f, "*") {
        Some(Op::Mul)
    } else if named(f, "/") {
        Some(Op::Div)
    } else if named(f, "neg") {
        Some(Op::Neg)
    } else if named(f, "sqabs") {
        Some(Op::Sqabs)
    } else if named(f, "real") {
        Some(Op::Real)
    } else if named(f, "conj") {
        Some(Op::Conj)
    } else if named(f, "<") {
        Some(Op::Lt)
    } else if named(f, ">") {
        Some(Op::Gt)
    } else if named(f, "<=") {
        Some(Op::Le)
    } else if named(f, ">=") {
        Some(Op::Ge)
    } else {
        None
    }
}

fn arity(op: Op) -> (r: usize)
    ensures
        r == op_arity(op),
{
    match op {
        Op::Neg | Op::Sqabs | Op::Real | Op::Conj => 1,
        _ => 2,
    }
}

/// A function body being lowered: the builder, the graph of the current
/// straight-line section, and the variables in scope.
struct FuncContext<A> {
    mb: ModuleBuilder,
    dag: Dag<A>,
    env: Vec<(String, Structure)>,
}

impl<A: Binary64> FuncContext<A> {
    spec fn wf(&self) -> bool {
        &&& self.mb.wf()
        &&& self.mb@.in_func
        &&& self.dag.wf()
        &&& forall|k: int|
            0 <= k < self.env@.len() ==> structure_in(
                #[trigger] self.env@[k].1,
                self.dag.spec_nodes().len(),
            )
    }

    spec fn len(&self) -> nat {
        self.dag.spec_nodes().len()
    }

    /// The bindings in scope, names as character sequences.
    spec fn scope(&self) -> Seq<(Seq<char>, Structure)> {
        self.env@.map_values(|b: (String, Structure)| (b.0@, b.1))
    }

    /// The names in scope.
    spec fn names(&self) -> Seq<Seq<char>> {
        self.env@.map_values(|b: (String, Structure)| b.0@)
    }

    /// Every name is bound to a complex value, or with `deriv` to a value with
    /// its derivatives.
    spec fn env_all(&self, deriv: bool) -> bool {
        forall|k: int|
            0 <= k < self.env@.len() ==> (if deriv {
                #[trigger] self.env@[k].1 is CxDeriv
            } else {
                self.env@[k].1 is Complex
            })
    }

    /// `next` extends `self`: the graph only grew; the builder and the scope are unchanged.
    spec fn grown(&self, next: &Self) -> bool {
        &&& next.wf()
        &&& self.len() <= next.len()
        &&& next.mb@ == self.mb@
        &&& next.env@ == self.env@
    }

    fn new(mb: ModuleBuilder) -> (r: Self)
        requires
            mb.wf(),
            mb@.in_func,
        ensures
            r.wf(),
            r.mb@ == mb@,
            r.env@.len() == 0,
            r.env_all(false),
            r.env_all(true),
            r.len() == 0,
    {
        FuncContext { mb, dag: Dag::new(), env: Vec::new() }
    }

    fn bind(&mut self, name: &str, s: Structure)
        requires
            old(self).wf(),
            structure_in(s, old(self).len()),
        ensures
            final(self).wf(),
            final(self).mb@ == old(self).mb@,
            final(self).dag.spec_nodes() == old(self).dag.spec_nodes(),
            final(self).env@.len() == old(self).env@.len() + 1,
            final(self).names() == old(self).names().push(name@),
            final(self).scope() == old(self).scope().push((name@, s)),
            old(self).env_all(false) && s is Complex ==> final(self).env_all(false),
            old(self).env_all(true) && s is CxDeriv ==> final(self).env_all(true),
    {
        self.env.push((name.to_owned(), s));
        assert(self.names() =~= old(self).names().push(name@));
        assert(self.scope() =~= old(self).scope().push((name@, s)));
        proof {
            assert forall|k: int| 0 <= k < self.env@.len() implies structure_in(
                #[trigger] self.env@[k].1,
                self.dag.spec_nodes().len(),
            ) by {
                if k < old(self).env@.len() {
                    assert(self.env@[k] == old(self).env@[k]);
                }
            }
        }
    }

    fn lookup(&self, name: &String) -> (r: Result<Structure, CompileError>)
        requires
            self.wf(),
        ensures
            r matches Ok(s) ==> structure_in(s, self.len()),
            r matches Err(e) ==> e == CompileError::UnknownVariable,
            r is Err <==> forall|k: int| 0 <= k < self.env@.len() ==> #[trigger] self.env@[k].0@ != name@,
            r matches Ok(s) ==> exists|k: int| 0 <= k < self.env@.len() && #[trigger] self.env@[k].1 == s,
            self.names().contains(name@) ==> r is Ok,
            r matches Ok(s) ==> lookup_spec(self.scope(), name@) == Some(s),
            r is Err ==> lookup_spec(self.scope(), name@) is None,
    {
        assert(self.scope().subrange(0, self.scope().len() as int) =~= self.scope());
        proof {
            if self.names().contains(name@) {
                let k = choose|k: int| 0 <= k < self.names().len() && self.names()[k] == name@;
                assert(self.env@[k].0@ == name@);
            }
        }
        let mut k: usize = 0;
        while k < self.env.len()
            invariant
                self.wf(),
                k <= self.env@.len(),
                forall|j: int| 0 <= j < k ==> #[trigger] self.env@[j].0@ != name@,
                lookup_spec(self.scope(), name@) == lookup_spec(
                    self.scope().subrange(k as int, self.scope().len() as int),
                    name@,
                ),
            decreases self.env@.len() - k,
        {
            proof {
                let sub = self.scope().subrange(k as int, self.scope().len() as int);
                assert(sub[0] == (self.env@[k as int].0@, self.env@[k as int].1));
                assert(sub.drop_first() =~= self.scope().subrange(k + 1, self.scope().len() as int));
            }
            if self.env[k].0 == *name {
                assert(self.env@[k as int].1 == self.env[k as int].1);
                return Ok(self.env[k].1);
            }
            k = k + 1;
        }
        proof {
            assert(self.scope().subrange(k as int, self.scope().len() as int).len() == 0);
        }
        Err(CompileError::UnknownVariable)
    }

    /// Adds componentwise.
    fn cx_add(&mut self, a: &Structure, b: &Structure) -> (r: Result<Structure, CompileError>)
        requires
            old(self).wf(),
            structure_in(*a, old(self).len()),
            structure_in(*b, old(self).len()),
        ensures
            old(self).grown(final(self)),
            r matches Ok(s) ==> s is Complex && structure_in(s, final(self).len()),
            r is Err <==> !(*a is Complex && *b is Complex),
            r matches Ok(s) ==> cx_add_rel(old(self).dag.spec_nodes(), *a, *b, final(self).dag.spec_nodes(), s),
    {
        let (ax, ay, bx, by) = (a.cx()?, a.cy()?, b.cx()?, b.cy()?);
        let ghost mut ns = seq![self.dag.spec_nodes()];
        let ghost mut cs = Seq::<DagCalc>::empty();
        let ghost mut rs = Seq::<DagNode>::empty();
        proof {
            lemma_chain_start(self.dag.spec_nodes());
        }
        let x = self.dag.f64_add(ax, bx);
        proof {
            lemma_chain_push(ns, cs, rs, DagCalc::F64Add(ax, bx), self.dag.spec_nodes(), x);
            ns = ns.push(self.dag.spec_nodes());
            cs = cs.push(DagCalc::F64Add(ax, bx));
            rs = rs.push(x);
        }
        let y = self.dag.f64_add(ay, by);
        proof {
            lemma_chain_push(ns, cs, rs, DagCalc::F64Add(ay, by), self.dag.spec_nodes(), y);
            ns = ns.push(self.dag.spec_nodes());
            cs = cs.push(DagCalc::F64Add(ay, by));
            rs = rs.push(y);
        }
        proof {
            lemma_chain_runs(ns, cs, rs);
            assert(cs =~= add_steps(*a, *b));
        }
        Ok(Structure::Complex(x, y))
    }

    /// Subtracts componentwise.
    fn cx_sub(&mut self, a: &Structure, b: &Structure) -> (r: Result<Structure, CompileError>)
        requires
            old(self).wf(),
            structure_in(*a, old(self).len()),
            structure_in(*b, old(self).len()),
        ensures
            old(self).grown(final(self)),
            r matches Ok(s) ==> s is Complex && structure_in(s, final(self).len()),
            r is Err <==> !(*a is Complex && *b is Complex),
            r matches Ok(s) ==> cx_sub_rel(old(self).dag.spec_nodes(), *a, *b, final(self).dag.spec_nodes(), s),
    {
        let (ax, ay, bx, by) = (a.cx()?, a.cy()?, b.cx()?, b.cy()?);
        let ghost mut ns = seq![self.dag.spec_nodes()];
        let ghost mut cs = Seq::<DagCalc>::empty();
        let ghost mut rs = Seq::<DagNode>::empty();
        proof {
            lemma_chain_start(self.dag.spec_nodes());
        }
        let x = self.dag.f64_sub(ax, bx);
        proof {
            lemma_chain_push(ns, cs, rs, DagCalc::F64Sub(ax, bx), self.dag.spec_nodes(), x);
            ns = ns.push(self.dag.spec_nodes());
            cs = cs.push(DagCalc::F64Sub(ax, bx));
            rs = rs.push(x);
        }
        let y = self.dag.f64_sub(ay, by);
        proof {
            lemma_chain_push(ns, cs, rs, DagCalc::F64Sub(ay, by), self.dag.spec_nodes(), y);
            ns = ns.push(self.dag.spec_nodes());
            cs = cs.push(DagCalc::F64Sub(ay, by));
            rs = rs.push(y);
        }
        proof {
            lemma_chain_runs(ns, cs, rs);
            assert(cs =~= sub_steps(*a, *b));
        }
        Ok(Structure::Complex(x, y))
    }

    /// `(x0 x1 - y0 y1, x0 y1 + x1 y0)`.
    fn cx_mul(&mut self, z0: &Structure, z1: &Structure) -> (r: Result<Structure, CompileError>)
        requires
            old(self).wf(),
            structure_in(*z0, old(self).len()),
            structure_in(*z1, old(self).len()),
        ensures
            old(self).grown(final(self)),
            r matches Ok(s) ==> s is Complex && structure_in(s, final(self).len()),
            r is Err <==> !(*z0 is Complex && *z1 is Complex),
            r matches Ok(s) ==> cx_mul_rel(old(self).dag.spec_nodes(), *z0, *z1, final(self).dag.spec_nodes(), s),
    {
        let (x0, y0, x1, y1) = (z0.cx()?, z0.cy()?, z1.cx()?, z1.cy()?);
        let ghost mut ns = seq![self.dag.spec_nodes()];
        let ghost mut cs = Seq::<DagCalc>::empty();
        let ghost mut rs = Seq::<DagNode>::empty();
        proof {
            lemma_chain_start(self.dag.spec_nodes());
        }
        let x0_x1 = self.dag.f64_mul(x0, x1);
        proof {
            lemma_chain_push(ns, cs, rs, DagCalc::F64Mul(x0, x1), self.dag.spec_nodes(), x0_x1);
            ns = ns.push(self.dag.spec_nodes());
            cs = cs.push(DagCalc::F64Mul(x0, x1));
            rs = rs.push(x0_x1);
        }
        let x0_y1 = self.dag.f64_mul(x0, y1);
        proof {
            lemma_chain_push(ns, cs, rs, DagCalc::F64Mul(x0, y1), self.dag.spec_nodes(), x0_y1);
            ns = ns.push(self.dag.spec_nodes());
            cs = cs.push(DagCalc::F64Mul(x0, y1));
            rs = rs.push(x0_y1);
        }
        let x1_y0 = self.dag.f64_mul(x1, y0);
        proof {
            lemma_chain_push(ns, cs, rs, DagCalc::F64Mul(x1, y0), self.dag.spec_nodes(), x1_y0);
            ns = ns.push(self.dag.spec_nodes());
            cs = cs.push(DagCalc::F64Mul(x1, y0));
            rs = rs.push(x1_y0);
        }
        let y0_y1 = self.dag.f64_mul(y0, y1);
        proof {
            lemma_chain_push(ns, cs, rs, DagCalc::F64Mul(y0, y1), self.dag.spec_nodes(), y0_y1);
            ns = ns.push(self.dag.spec_nodes());
            cs = cs.push(DagCalc::F64Mul(y0, y1));
            rs = rs.push(y0_y1);
        }
        let x = self.dag.f64_sub(x0_x1, y0_y1);
        proof {
            lemma_chain_push(ns, cs, rs, DagCalc::F64Sub(x0_x1, y0_y1), self.dag.spec_nodes(), x);
            ns = ns.push(self.dag.spec_nodes());
            cs = cs.push(DagCalc::F64Sub(x0_x1, y0_y1));
            rs = rs.push(x);
        }
        let y = self.dag.f64_add(x0_y1, x1_y0);
        proof {
            lemma_chain_push(ns, cs, rs, DagCalc::F64Add(x0_y1, x1_y0), self.dag.spec_nodes(), y);
            ns = ns.push(self.dag.spec_nodes());
            cs = cs.push(DagCalc::F64Add(x0_y1, x1_y0));
            rs = rs.push(y);
        }
        proof {
            lemma_chain_runs(ns, cs, rs);
            assert(cs =~= mul_steps(*z0, *z1, rs));
        }
        Ok(Structure::Complex(x, y))
    }

    /// `((ac + bd) / (c² + d²), (bc - ad) / (c² + d²))` for `(a + bi) / (c + di)`.
    fn cx_div(&mut self, z0: &Structure, z1: &Structure) -> (r: Result<Structure, CompileError>)
        requires
            old(self).wf(),
            structure_in(*z0, old(self).len()),
            structure_in(*z1, old(self).len()),
        ensures
            old(self).grown(final(self)),
            r matches Ok(s) ==> s is Complex && structure_in(s, final(self).len()),
            r is Err <==> !(*z0 is Complex && *z1 is Complex),
            r matches Ok(s) ==> cx_div_rel(old(self).dag.spec_nodes(), *z0, *z1, final(self).dag.spec_nodes(), s),
    {
        let (a, b, c, d) = (z0.cx()?, z0.cy()?, z1.cx()?, z1.cy()?);
        let ghost mut ns = seq![self.dag.spec_nodes()];
        let ghost mut cs = Seq::<DagCalc>::empty();
        let ghost mut rs = Seq::<DagNode>::empty();
        proof {
            lemma_chain_start(self.dag.spec_nodes());
        }
        let ac = self.dag.f64_mul(a, c);
        proof {
            lemma_chain_push(ns, cs, rs, DagCalc::F64Mul(a, c), self.dag.spec_nodes(), ac);
            ns = ns.push(self.dag.spec_nodes());
            cs = cs.push(DagCalc::F64Mul(a, c));
            rs = rs.push(ac);
        }
        let bd = self.dag.f64_mul(b, d);
        proof {
            lemma_chain_push(ns, cs, rs, DagCalc::F64Mul(b, d), self.dag.spec_nodes(), bd);
            ns = ns.push(self.dag.spec_nodes());
            cs = cs.push(DagCalc::F64Mul(b, d));
            rs = rs.push(bd);
        }
        let bc = self.dag.f64_mul(b, c);
        proof {
            lemma_chain_push(ns, cs, rs, DagCalc::F64Mul(b, c), self.dag.spec_nodes(), bc);
            ns = ns.push(self.dag.spec_nodes());
            cs = cs.push(DagCalc::F64Mul(b, c));
            rs = rs.push(bc);
        }
        let ad = self.dag.f64_mul(a, d);
        proof {
            lemma_chain_push(ns, cs, rs, DagCalc::F64Mul(a, d), self.dag.spec_nodes(), ad);
            ns = ns.push(self.dag.spec_nodes());
            cs = cs.push(DagCalc::F64Mul(a, d));
            rs = rs.push(ad);
        }
        let cc = self.dag.f64_mul(c, c);
        proof {
            lemma_chain_push(ns, cs, rs, DagCalc::F64Mul(c, c), self.dag.spec_nodes(), cc);
            ns = ns.push(self.dag.spec_nodes());
            cs = cs.push(DagCalc::F64Mul(c, c));
            rs = rs.push(cc);
        }
        let dd = self.dag.f64_mul(d, d);
        proof {
            lemma_chain_push(ns, cs, rs, DagCalc::F64Mul(d, d), self.dag.spec_nodes(), dd);
            ns = ns.push(self.dag.spec_nodes());
            cs = cs.push(DagCalc::F64Mul(d, d));
            rs = rs.push(dd);
        }
        let rr = self.dag.f64_add(cc, dd);
        proof {
            lemma_chain_push(ns, cs, rs, DagCalc::F64Add(cc, dd), self.dag.spec_nodes(), rr);
            ns = ns.push(self.dag.spec_nodes());
            cs = cs.push(DagCalc::F64Add(cc, dd));
            rs = rs.push(rr);
        }
        let xrr = self.dag.f64_add(ac, bd);
        proof {
            lemma_chain_push(ns, cs, rs, DagCalc::F64Add(ac, bd), self.dag.spec_nodes(), xrr);
            ns = ns.push(self.dag.spec_nodes());
            cs = cs.push(DagCalc::F64Add(ac, bd));
            rs = rs.push(xrr);
        }
        let yrr = self.dag.f64_sub(bc, ad);
        proof {
            lemma_chain_push(ns, cs, rs, DagCalc::F64Sub(bc, ad), self.dag.spec_nodes(), yrr);
            ns = ns.push(self.dag.spec_nodes());
            cs = cs.push(DagCalc::F64Sub(bc, ad));
            rs = rs.push(yrr);
        }
        let x = self.dag.f64_div(xrr, rr);
        proof {
            lemma_chain_push(ns, cs, rs, DagCalc::F64Div(xrr, rr), self.dag.spec_nodes(), x);
            ns = ns.push(self.dag.spec_nodes());
            cs = cs.push(DagCalc::F64Div(xrr, rr));
            rs = rs.push(x);
        }
        let y = self.dag.f64_div(yrr, rr);
        proof {
            lemma_chain_push(ns, cs, rs, DagCalc::F64Div(yrr, rr), self.dag.spec_nodes(), y);
            ns = ns.push(self.dag.spec_nodes());
            cs = cs.push(DagCalc::F64Div(yrr, rr));
            rs = rs.push(y);
        }
        proof {
            lemma_chain_runs(ns, cs, rs);
            assert(cs =~= div_steps(*z0, *z1, rs));
        }
        Ok(Structure::Complex(x, y))
    }

    /// Negates componentwise.
    fn cx_neg(&mut self, z: &Structure) -> (r: Result<Structure, CompileError>)
        requires
            old(self).wf(),
            structure_in(*z, old(self).len()),
        ensures
            old(self).grown(final(self)),
            r matches Ok(s) ==> s is Complex && structure_in(s, final(self).len()),
            r is Err <==> !(*z is Complex),
            r matches Ok(s) ==> cx_neg_rel(old(self).dag.spec_nodes(), *z, final(self).dag.spec_nodes(), s),
    {
        let (zx, zy) = (z.cx()?, z.cy()?);
        let ghost mut ns = seq![self.dag.spec_nodes()];
        let ghost mut cs = Seq::<DagCalc>::empty();
        let ghost mut rs = Seq::<DagNode>::empty();
        proof {
            lemma_chain_start(self.dag.spec_nodes());
        }
        let x = self.dag.f64_neg(zx);
        proof {
            lemma_chain_push(ns, cs, rs, DagCalc::F64Neg(zx), self.dag.spec_nodes(), x);
            ns = ns.push(self.dag.spec_nodes());
            cs = cs.push(DagCalc::F64Neg(zx));
            rs = rs.push(x);
        }
        let y = self.dag.f64_neg(zy);
        proof {
            lemma_chain_push(ns, cs, rs, DagCalc::F64Neg(zy), self.dag.spec_nodes(), y);
            ns = ns.push(self.dag.spec_nodes());
            cs = cs.push(DagCalc::F64Neg(zy));
            rs = rs.push(y);
        }
        proof {
            lemma_chain_runs(ns, cs, rs);
            assert(cs =~= neg_steps(*z));
        }
        Ok(Structure::Complex(x, y))
    }

    /// A value with zero derivatives.
    fn dconst(&self, x: DagNode, y: DagNode) -> (r: Structure)
        ensures
            r == Structure::CxDeriv(
                [x, y, DagNode::F64(ZERO_BITS), DagNode::F64(ZERO_BITS), DagNode::F64(ZERO_BITS), DagNode::F64(ZERO_BITS)],
            ),
    {
        let zero = self.dag.f64_zero();
        Structure::CxDeriv([x, y, zero, zero, zero, zero])
    }

    /// Lowers the arguments of a call, in order.
    fn do_args(&mut self, args: &Vec<Expr>, deriv: bool, call: Ghost<SpecExpr>) -> (r: Result<
        Vec<Structure>,
        CompileError,
    >)
        requires
            old(self).wf(),
            call@ is Call,
            call@->Call_1.len() == args@.len(),
            forall|k: int| 0 <= k < args@.len() ==> call@->Call_1[k] == #[trigger] args@[k]@,
        ensures
            old(self).grown(final(self)),
            r matches Ok(v) ==> v@.len() == args@.len() && forall|k: int|
                0 <= k < v@.len() ==> structure_in(#[trigger] v@[k], final(self).len()),
            r matches Ok(v) ==> exists|ns: Seq<Seq<DagCalc>>|
                #[trigger] arg_shape(call@, ns, v@) && ns[0] == old(self).dag.spec_nodes()
                    && ns[args@.len() as int] == final(self).dag.spec_nodes() && forall|k: int|
                    0 <= k < args@.len() ==> lowers(old(self).scope(), deriv, ns[k], call@->Call_1[k], ns[k + 1], #[trigger] v@[k]),
            !deriv && old(self).env_all(false) && (forall|k: int|
                0 <= k < args@.len() ==> complex_expr(#[trigger] args@[k]@, old(self).names()))
                ==> (r matches Ok(v) && forall|k: int|
                0 <= k < args@.len() ==> complex_result(args@[k]@, old(self).names(), #[trigger] v@[k])),
            deriv && old(self).env_all(true) && (forall|k: int|
                0 <= k < args@.len() ==> deriv_expr(#[trigger] args@[k]@, old(self).names()))
                ==> (r matches Ok(v) && forall|k: int| 0 <= k < args@.len() ==> #[trigger] v@[k] is CxDeriv),
        decreases args, 0nat,
    {
        let mut structs: Vec<Structure> = Vec::new();
        let ghost mut ns = seq![self.dag.spec_nodes()];
        let mut i: usize = 0;
        while i < args.len()
            invariant
                old(self).grown(self),
                i <= args@.len(),
                structs@.len() == i,
                forall|k: int| 0 <= k < structs@.len() ==> structure_in(#[trigger] structs@[k], self.len()),
                ns.len() == i + 1,
                ns[0] == old(self).dag.spec_nodes(),
                ns[i as int] == self.dag.spec_nodes(),
                forall|k: int|
                    0 <= k < i ==> lowers(old(self).scope(), deriv, ns[k], args@[k]@, ns[k + 1], #[trigger] structs@[k]),
                !deriv && old(self).env_all(false) && (forall|k: int|
                    0 <= k < args@.len() ==> complex_expr(#[trigger] args@[k]@, old(self).names()))
                    ==> forall|k: int|
                    0 <= k < i ==> complex_result(args@[k]@, old(self).names(), #[trigger] structs@[k]),
                deriv && old(self).env_all(true) && (forall|k: int|
                    0 <= k < args@.len() ==> deriv_expr(#[trigger] args@[k]@, old(self).names()))
                    ==> forall|k: int| 0 <= k < i ==> #[trigger] structs@[k] is CxDeriv,
            decreases args@.len() - i,
        {
            let ghost before = self.len();
            let s = if deriv {
                self.do_expr_deriv(&args[i])?
            } else {
                self.do_expr(&args[i])?
            };
            structs.push(s);
            proof {
                ns = ns.push(self.dag.spec_nodes());
                assert forall|k: int| 0 <= k < structs@.len() implies structure_in(
                    #[trigger] structs@[k],
                    self.len(),
                ) by {
                    if k < i {
                        lemma_structure_in_mono(structs@[k], before, self.len());
                    }
                }
            }
            i = i + 1;
        }
        proof {
            assert(arg_shape(call@, ns, structs@));
        }
        Ok(structs)
    }

    /// Applies the operator `o` to the lowered arguments, by `apply_rel`.
    fn apply_op(&mut self, op: Op, structs: &Vec<Structure>) -> (r: Result<Structure, CompileError>)
        requires
            old(self).wf(),
            structs@.len() == op_arity(op),
            forall|k: int| 0 <= k < structs@.len() ==> structure_in(#[trigger] structs@[k], old(self).len()),
        ensures
            old(self).grown(final(self)),
            r matches Ok(s) ==> structure_in(s, final(self).len()),
            r matches Ok(s) ==> apply_rel(op, structs@, old(self).dag.spec_nodes(), final(self).dag.spec_nodes(), s),
            !is_comparison(op) && (forall|k: int| 0 <= k < structs@.len() ==> #[trigger] structs@[k] is Complex)
                ==> (r matches Ok(s) && s is Complex && ((op == Op::Sqabs || op == Op::Real) ==> is_real(s))),
            is_comparison(op) && is_real(structs@[0]) && is_real(structs@[1]) ==> (r matches Ok(s) && s is Bool),
    {
        match op {
            Op::Add => self.cx_add(&structs[0], &structs[1]),
            Op::Sub => self.cx_sub(&structs[0], &structs[1]),
            Op::Mul => self.cx_mul(&structs[0], &structs[1]),
            Op::Div => self.cx_div(&structs[0], &structs[1]),
            Op::Neg => self.cx_neg(&structs[0]),
            Op::Sqabs => {
                let (x, y) = (structs[0].cx()?, structs[0].cy()?);
                let ghost mut ns = seq![self.dag.spec_nodes()];
                let ghost mut cs = Seq::<DagCalc>::empty();
                let ghost mut rs = Seq::<DagNode>::empty();
                proof {
                    lemma_chain_start(self.dag.spec_nodes());
                }
                let xx = self.dag.f64_mul(x, x);
                proof {
                    lemma_chain_push(ns, cs, rs, DagCalc::F64Mul(x, x), self.dag.spec_nodes(), xx);
                    ns = ns.push(self.dag.spec_nodes());
                    cs = cs.push(DagCalc::F64Mul(x, x));
                    rs = rs.push(xx);
                }
                let yy = self.dag.f64_mul(y, y);
                proof {
                    lemma_chain_push(ns, cs, rs, DagCalc::F64Mul(y, y), self.dag.spec_nodes(), yy);
                    ns = ns.push(self.dag.spec_nodes());
                    cs = cs.push(DagCalc::F64Mul(y, y));
                    rs = rs.push(yy);
                }
                let rr = self.dag.f64_add(xx, yy);
                proof {
                    lemma_chain_push(ns, cs, rs, DagCalc::F64Add(xx, yy), self.dag.spec_nodes(), rr);
                    ns = ns.push(self.dag.spec_nodes());
                    cs = cs.push(DagCalc::F64Add(xx, yy));
                    rs = rs.push(rr);
                }
                proof {
                    lemma_chain_runs(ns, cs, rs);
                    assert(cs =~= sqabs_steps(structs@[0], rs));
                }
                Ok(Structure::Complex(rr, self.dag.f64_zero()))
            },
            Op::Real => {
                let x = structs[0].cx()?;
                Ok(Structure::Complex(x, self.dag.f64_zero()))
            },
            Op::Conj => {
                let (x, y) = (structs[0].cx()?, structs[0].cy()?);
                let ghost mut ns = seq![self.dag.spec_nodes()];
                let ghost mut cs = Seq::<DagCalc>::empty();
                let ghost mut rs = Seq::<DagNode>::empty();
                proof {
                    lemma_chain_start(self.dag.spec_nodes());
                }
                let ny = self.dag.f64_neg(y);
                proof {
                    lemma_chain_push(ns, cs, rs, DagCalc::F64Neg(y), self.dag.spec_nodes(), ny);
                    ns = ns.push(self.dag.spec_nodes());
                    cs = cs.push(DagCalc::F64Neg(y));
                    rs = rs.push(ny);
                }
                proof {
                    lemma_chain_runs(ns, cs, rs);
                    assert(cs =~= seq![DagCalc::F64Neg(structs@[0]->Complex_1)]);
                }
                Ok(Structure::Complex(x, ny))
            },
            Op::Lt | Op::Gt | Op::Le | Op::Ge => {
                let (a, b) = (structs[0].as_real_f64()?, structs[1].as_real_f64()?);
                let ghost mut ns = seq![self.dag.spec_nodes()];
                let ghost mut cs = Seq::<DagCalc>::empty();
                let ghost mut rs = Seq::<DagNode>::empty();
                proof {
                    lemma_chain_start(self.dag.spec_nodes());
                }
                let c = match op {
                    Op::Lt => self.dag.f64_lt(a, b),
                    Op::Gt => self.dag.f64_gt(a, b),
                    Op::Le => self.dag.f64_le(a, b),
                    _ => self.dag.f64_ge(a, b),
                };
                proof {
                    lemma_chain_push(ns, cs, rs, compare_step(op, a, b), self.dag.spec_nodes(), c);
                    ns = ns.push(self.dag.spec_nodes());
                    cs = cs.push(compare_step(op, a, b));
                    rs = rs.push(c);
                    lemma_chain_runs(ns, cs, rs);
                    assert(cs =~= seq![compare_step(op, structs@[0]->Complex_0, structs@[1]->Complex_0)]);
                }
                Ok(Structure::Bool(c))
            },
        }
    }

    /// Lowers an expression over complex numbers, by the rules of `lowers`.
    fn do_expr(&mut self, expr: &Expr) -> (r: Result<Structure, CompileError>)
        requires
            old(self).wf(),
        ensures
            old(self).grown(final(self)),
            r matches Ok(s) ==> structure_in(s, final(self).len()),
            r matches Ok(s) ==> lowers(
                old(self).scope(),
                false,
                old(self).dag.spec_nodes(),
                expr@,
                final(self).dag.spec_nodes(),
                s,
            ),
            old(self).env_all(false) && complex_expr(expr@, old(self).names()) ==> (r matches Ok(s)
                && complex_result(expr@, old(self).names(), s)),
            old(self).env_all(false) && compare_expr(expr@, old(self).names()) ==> (r matches Ok(s)
                && s is Bool),
        decreases expr, 1nat,
    {
        match expr {
            Expr::Number(t) => {
                let x = self.dag.f64_const(A::decimal_bits(t.as_str()));
                Ok(Structure::Complex(x, self.dag.f64_zero()))
            },
            Expr::Var(name) => {
                let r = self.lookup(name);
                assert(expr@ == SpecExpr::Var(name@));
                r
            },
            Expr::Call(f, args) => {
                let op = match classify(f) {
                    Some(op) => op,
                    None => {
                        return Err(CompileError::UnknownOperator);
                    },
                };
                if args.len() != arity(op) {
                    return Err(CompileError::Arity);
                }
                proof {
                    assert(expr@->Call_0 == f@);
                    assert(expr@->Call_1.len() == args@.len());
                    assert forall|k: int| 0 <= k < args@.len() implies expr@->Call_1[k] == args@[k]@ by {}
                    if complex_expr(expr@, self.names()) {
                        assert forall|k: int| 0 <= k < args@.len() implies complex_expr(
                            #[trigger] args@[k]@,
                            self.names(),
                        ) by {
                            assert(complex_expr(expr@->Call_1[k], self.names()));
                        }
                    }
                    if compare_expr(expr@, self.names()) {
                        assert forall|k: int| 0 <= k < args@.len() implies complex_expr(
                            #[trigger] args@[k]@,
                            self.names(),
                        ) by {
                            assert(real_expr(expr@->Call_1[k], self.names()));
                            lemma_real_is_complex(args@[k]@, self.names());
                        }
                    }
                }
                let structs = self.do_args(args, false, Ghost(expr@))?;
                let ghost n1 = self.dag.spec_nodes();
                let ghost args_ns = choose|ns: Seq<Seq<DagCalc>>|
                    #[trigger] arg_shape(expr@, ns, structs@) && ns[0] == old(self).dag.spec_nodes()
                        && ns[args@.len() as int] == n1 && forall|k: int|
                        0 <= k < args@.len() ==> lowers(old(self).scope(), false, ns[k], expr@->Call_1[k], ns[k + 1], #[trigger] structs@[k]);
                proof {
                    if old(self).env_all(false) && compare_expr(expr@, old(self).names()) {
                        assert(expr@->Call_1[0] == args@[0]@);
                        assert(expr@->Call_1[1] == args@[1]@);
                        assert(complex_result(args@[0]@, old(self).names(), structs@[0]));
                        assert(complex_result(args@[1]@, old(self).names(), structs@[1]));
                    }
                    if old(self).env_all(false) && complex_expr(expr@, old(self).names()) {
                        assert forall|k: int| 0 <= k < structs@.len() implies #[trigger] structs@[k] is Complex by {
                            assert(complex_result(args@[k]@, old(self).names(), structs@[k]));
                        }
                    }
                }
                let result = self.apply_op(op, &structs);
                proof {
                    if let Ok(s) = result {
                        assert(apply_rel(op, structs@, n1, self.dag.spec_nodes(), s));
                        lemma_lowers_call(old(self).scope(), false, old(self).dag.spec_nodes(), expr@, self.dag.spec_nodes(), s, op, args_ns, structs@);
                    }
                }
                result
            },
        }
    }

    /// `+`, `-` or `neg` in the derivative mode: on the value and each derivative.
    fn deriv_linear(&mut self, op: Op, structs: &Vec<Structure>) -> (r: Result<Structure, CompileError>)
        requires
            old(self).wf(),
            structs@.len() == op_arity(op),
            forall|k: int| 0 <= k < structs@.len() ==> structure_in(#[trigger] structs@[k], old(self).len()),
            op == Op::Add || op == Op::Sub || op == Op::Neg,
        ensures
            old(self).grown(final(self)),
            r matches Ok(s) ==> structure_in(s, final(self).len()),
            r matches Ok(s) ==> dapply_rel(op, structs@, old(self).dag.spec_nodes(), final(self).dag.spec_nodes(), s),
            (forall|k: int| 0 <= k < structs@.len() ==> #[trigger] structs@[k] is CxDeriv) ==> (r matches Ok(s) && s is CxDeriv),
    {
        let ghost n1 = self.dag.spec_nodes();
        let ghost mut ms = seq![n1];
        let ghost mut zs = Seq::<Structure>::empty();
        let d0 = structs[0].derivs()?;
        let d1 = if op == Op::Neg {
            d0
        } else {
            structs[1].derivs()?
        };
        let mut k: usize = 0;
        let mut parts: Vec<Structure> = Vec::new();
        while k < 3
            invariant
                old(self).grown(self),
                k <= 3,
                parts@.len() == k,
                ms.len() == k + 1,
                zs == parts@,
                ms[0] == n1,
                ms[k as int] == self.dag.spec_nodes(),
                n1.len() <= self.len(),
                forall|j: int| 0 <= j < k ==> structure_in(#[trigger] parts@[j], self.len()),
                forall|j: int|
                    0 <= j < k ==> #[trigger] part_rel(
                        op,
                        ms[j],
                        dpart(structs@[0], j),
                        dpart(structs@[1], j),
                        ms[j + 1],
                        zs[j],
                    ),
                forall|j: int| 0 <= j < k ==> #[trigger] parts@[j] is Complex,
                forall|j: int| 0 <= j < 3 ==> structure_in(#[trigger] d0@[j], n1.len()),
                forall|j: int| 0 <= j < 3 ==> structure_in(#[trigger] d1@[j], n1.len()),
                d0@ =~= seq![dpart(structs@[0], 0), dpart(structs@[0], 1), dpart(structs@[0], 2)],
                op != Op::Neg ==> d1@ =~= seq![dpart(structs@[1], 0), dpart(structs@[1], 1), dpart(structs@[1], 2)],
            decreases 3 - k,
        {
            let ghost before = self.len();
            proof {
                lemma_structure_in_mono(d0@[k as int], n1.len(), self.len());
                lemma_structure_in_mono(d1@[k as int], n1.len(), self.len());
            }
            let z = match op {
                Op::Add => self.cx_add(&d0[k], &d1[k])?,
                Op::Sub => self.cx_sub(&d0[k], &d1[k])?,
                _ => self.cx_neg(&d0[k])?,
            };
            proof {
                assert(part_rel(op, ms[k as int], dpart(structs@[0], k as int), dpart(structs@[1], k as int), self.dag.spec_nodes(), z));
                ms = ms.push(self.dag.spec_nodes());
                zs = zs.push(z);
                assert forall|j: int| 0 <= j < k implies structure_in(#[trigger] parts@[j], self.len()) by {
                    lemma_structure_in_mono(parts@[j], before, self.len());
                }
            }
            parts.push(z);
            k = k + 1;
        }
        let r = Structure::deriv(parts[0], parts[1], parts[2]);
        proof {
            if let Ok(s) = r {
                assert(parts_rel(op, structs@, ms, zs));
                assert(deriv_parts(s, zs));
            }
        }
        r
    }

    /// `*` in the derivative mode: the product rule.
    #[verifier::rlimit(100)]
    fn deriv_product(&mut self, op: Op, structs: &Vec<Structure>) -> (r: Result<Structure, CompileError>)
        requires
            old(self).wf(),
            structs@.len() == op_arity(op),
            forall|k: int| 0 <= k < structs@.len() ==> structure_in(#[trigger] structs@[k], old(self).len()),
            op == Op::Mul,
        ensures
            old(self).grown(final(self)),
            r matches Ok(s) ==> structure_in(s, final(self).len()),
            r matches Ok(s) ==> dapply_rel(op, structs@, old(self).dag.spec_nodes(), final(self).dag.spec_nodes(), s),
            (forall|k: int| 0 <= k < structs@.len() ==> #[trigger] structs@[k] is CxDeriv) ==> (r matches Ok(s) && s is CxDeriv),
    {
        let ghost n1 = self.dag.spec_nodes();
        let ghost mut ms = seq![n1];
        let ghost mut zs = Seq::<Structure>::empty();
        let d0 = structs[0].derivs()?;
        let d1 = structs[1].derivs()?;
        let (a, b, c) = (d0[0], d0[1], d0[2]);
        let (d, e, f) = (d1[0], d1[1], d1[2]);
        let ad = self.cx_mul(&a, &d)?;
        proof {
            ms = ms.push(self.dag.spec_nodes());
            zs = zs.push(ad);
            assert(cx_mul_rel(ms[0], a, d, ms[1], zs[0]));
        }
        let ae = self.cx_mul(&a, &e)?;
        proof {
            ms = ms.push(self.dag.spec_nodes());
            zs = zs.push(ae);
            assert(cx_mul_rel(ms[1], a, e, ms[2], zs[1]));
        }
        let bd = self.cx_mul(&b, &d)?;
        proof {
            ms = ms.push(self.dag.spec_nodes());
            zs = zs.push(bd);
            assert(cx_mul_rel(ms[2], b, d, ms[3], zs[2]));
        }
        let cd = self.cx_mul(&c, &d)?;
        proof {
            ms = ms.push(self.dag.spec_nodes());
            zs = zs.push(cd);
            assert(cx_mul_rel(ms[3], c, d, ms[4], zs[3]));
        }
        let be = self.cx_mul(&b, &e)?;
        proof {
            ms = ms.push(self.dag.spec_nodes());
            zs = zs.push(be);
            assert(cx_mul_rel(ms[4], b, e, ms[5], zs[4]));
        }
        let af = self.cx_mul(&a, &f)?;
        proof {
            ms = ms.push(self.dag.spec_nodes());
            zs = zs.push(af);
            assert(cx_mul_rel(ms[5], a, f, ms[6], zs[5]));
        }
        let z1 = self.cx_add(&ae, &bd)?;
        proof {
            ms = ms.push(self.dag.spec_nodes());
            zs = zs.push(z1);
            assert(cx_add_rel(ms[6], zs[1], zs[2], ms[7], zs[6]));
        }
        let be2 = self.cx_add(&be, &be)?;
        proof {
            ms = ms.push(self.dag.spec_nodes());
            zs = zs.push(be2);
            assert(cx_add_rel(ms[7], zs[4], zs[4], ms[8], zs[7]));
        }
        let be2_af = self.cx_add(&be2, &af)?;
        proof {
            ms = ms.push(self.dag.spec_nodes());
            zs = zs.push(be2_af);
            assert(cx_add_rel(ms[8], zs[7], zs[5], ms[9], zs[8]));
        }
        let z2 = self.cx_add(&cd, &be2_af)?;
        proof {
            ms = ms.push(self.dag.spec_nodes());
            zs = zs.push(z2);
            assert(cx_add_rel(ms[9], zs[3], zs[8], ms[10], zs[9]));
        }
        let r = Structure::deriv(ad, z1, z2);
        proof {
            if let Ok(s) = r {
                assert(product_rule(structs@[0], structs@[1], ms, zs));
                assert(deriv_parts(s, seq![zs[0], zs[6], zs[9]]));
            }
        }
        r
    }

    /// Applies the operator `o` to the lowered arguments in the derivative mode, by `dapply_rel`.
    fn apply_deriv_op(&mut self, op: Op, structs: &Vec<Structure>) -> (r: Result<Structure, CompileError>)
        requires
            old(self).wf(),
            structs@.len() == op_arity(op),
            forall|k: int| 0 <= k < structs@.len() ==> structure_in(#[trigger] structs@[k], old(self).len()),
        ensures
            old(self).grown(final(self)),
            r matches Ok(s) ==> structure_in(s, final(self).len()),
            r matches Ok(s) ==> dapply_rel(op, structs@, old(self).dag.spec_nodes(), final(self).dag.spec_nodes(), s),
            (op == Op::Add || op == Op::Sub || op == Op::Mul || op == Op::Neg) && (forall|k: int|
                0 <= k < structs@.len() ==> #[trigger] structs@[k] is CxDeriv) ==> (r matches Ok(s) && s is CxDeriv),
    {
        match op {
            Op::Add | Op::Sub | Op::Neg => self.deriv_linear(op, structs),
            Op::Mul => self.deriv_product(op, structs),
            _ => Err(CompileError::NotDifferentiable),
        }
    }

    /// Lowers an expression to its value and its first and second derivatives
    /// with respect to `z`, by the rules of `lowers` in the derivative mode.
    fn do_expr_deriv(&mut self, expr: &Expr) -> (r: Result<Structure, CompileError>)
        requires
            old(self).wf(),
        ensures
            old(self).grown(final(self)),
            r matches Ok(s) ==> structure_in(s, final(self).len()),
            r matches Ok(s) ==> lowers(
                old(self).scope(),
                true,
                old(self).dag.spec_nodes(),
                expr@,
                final(self).dag.spec_nodes(),
                s,
            ),
            old(self).env_all(true) && deriv_expr(expr@, old(self).names()) ==> (r matches Ok(s)
                && s is CxDeriv),
        decreases expr, 1nat,
    {
        match expr {
            Expr::Number(t) => {
                let x = self.dag.f64_const(A::decimal_bits(t.as_str()));
                let r = self.dconst(x, self.dag.f64_zero());
                proof {
                    assert(r->CxDeriv_0@.subrange(1, 6) =~= seq![
                        DagNode::F64(ZERO_BITS),
                        DagNode::F64(ZERO_BITS),
                        DagNode::F64(ZERO_BITS),
                        DagNode::F64(ZERO_BITS),
                        DagNode::F64(ZERO_BITS),
                    ]);
                }
                Ok(r)
            },
            Expr::Var(name) => self.lookup(name),
            Expr::Call(f, args) => {
                let op = match classify(f) {
                    Some(op) => op,
                    None => {
                        return Err(CompileError::UnknownOperator);
                    },
                };
                if args.len() != arity(op) {
                    return Err(CompileError::Arity);
                }
                proof {
                    assert(expr@->Call_0 == f@);
                    assert(expr@->Call_1.len() == args@.len());
                    assert forall|k: int| 0 <= k < args@.len() implies expr@->Call_1[k] == args@[k]@ by {}
                    if deriv_expr(expr@, self.names()) {
                        assert forall|k: int| 0 <= k < args@.len() implies deriv_expr(
                            #[trigger] args@[k]@,
                            self.names(),
                        ) by {
                            assert(deriv_expr(expr@->Call_1[k], self.names()));
                        }
                    }
                }
                let structs = self.do_args(args, true, Ghost(expr@))?;
                let ghost n1 = self.dag.spec_nodes();
                let ghost args_ns = choose|ns: Seq<Seq<DagCalc>>|
                    #[trigger] arg_shape(expr@, ns, structs@) && ns[0] == old(self).dag.spec_nodes()
                        && ns[args@.len() as int] == n1 && forall|k: int|
                        0 <= k < args@.len() ==> lowers(old(self).scope(), true, ns[k], expr@->Call_1[k], ns[k + 1], #[trigger] structs@[k]);
                let result = self.apply_deriv_op(op, &structs);
                proof {
                    if let Ok(s) = result {
                        assert(dapply_rel(op, structs@, n1, self.dag.spec_nodes(), s));
                        lemma_lowers_call(old(self).scope(), true, old(self).dag.spec_nodes(), expr@, self.dag.spec_nodes(), s, op, args_ns, structs@);
                    }
                }
                result
            },
        }
    }

    /// Schedules the graph with the given effects into the open function.
    fn done(self, effects: &[Effect]) -> (r: Result<ModuleBuilder, CompileError>)
        requires
            self.wf(),
            forall|k: int| 0 <= k < effects@.len() ==> self.dag.holds(#[trigger] effects@[k].1),
        ensures
            r matches Ok(mb) ==> mb.wf() && mb@ == (ModuleModel {
                code: mb@.code,
                locals: mb@.locals,
                ..self.mb@
            }),
            r is Err ==> r == Err::<ModuleBuilder, CompileError>(CompileError::TooLarge),
            self.len() + self.mb@.param_count + self.mb@.locals.len() < usize::MAX ==> r is Ok,
            r matches Ok(mb) ==> mb@.locals.len() <= self.mb@.locals.len() + self.len(),
            r matches Ok(mb) ==> ({
                let s = schedule(self.dag.spec_nodes(), self.mb@.param_count as nat, self.mb@.code, self.mb@.locals, effects@);
                mb@.code == s.code && mb@.locals == s.locals
            }),
    {
        let FuncContext { mut mb, dag, env } = self;
        proof {
            mb.lemma_model_ok();
        }
        if dag.len() >= usize::MAX - mb.local_total() {
            return Err(CompileError::TooLarge);
        }
        dag.emit(&mut mb, effects);
        Ok(mb)
    }
}


pub open spec fn f64_const_bytes(bits: u64) -> Seq<u8> {
    seq![0x44u8] + le_bytes(bits as nat, 8)
}

pub open spec fn local_set_bytes(l: nat) -> Seq<u8> {
    seq![0x21u8] + uleb(l)
}

/// The effects of one round of the escape-time loop: leave the loop when `e1`
/// or `e2` holds, else push the new `z` and the new iteration count.
pub open spec fn round_effects(e1: DagNode, e2: DagNode, x: DagNode, y: DagNode, it: DagNode) -> Seq<Effect> {
    seq![
        Effect(EffectType::BrIf(1), e1),
        Effect(EffectType::BrIf(1), e2),
        Effect(EffectType::Push, x),
        Effect(EffectType::Push, y),
        Effect(EffectType::Push, it),
    ]
}

/// After a round's effects: store the iteration count and `z`, loop again;
/// after the loop, return the iteration count; end of the function.
pub open spec fn round_end(l0: nat, l1: nat, iter: nat) -> Seq<u8> {
    local_set_bytes(iter) + local_set_bytes(l1) + local_set_bytes(l0) + seq![0x0cu8, 0x00, 0x0b, 0x0b]
        + local_get_bytes(Local(iter as usize)) + seq![0x0bu8]
}

/// The start of the single-expression entry point: `z = 0.75 + 0.75i` in
/// locals 0 and 1, `iter = 0` in local 2, then `block` and `loop`.
pub open spec fn simple_prefix() -> Seq<u8> {
    f64_const_bytes(THREE_QUARTERS_BITS) + local_set_bytes(0) + f64_const_bytes(THREE_QUARTERS_BITS)
        + local_set_bytes(1) + f64_const_bytes(ZERO_BITS) + local_set_bytes(2) + seq![0x02u8, 0x40, 0x03, 0x40]
}

/// The scope of the single-expression loop: `i`, `z` in locals 0 and 1, `iter` in local 2.
pub open spec fn simple_env() -> Seq<(Seq<char>, Structure)> {
    seq![
        ("i"@, Structure::Complex(DagNode::F64(ZERO_BITS), DagNode::F64(ONE_BITS))),
        ("z"@, Structure::Complex(DagNode::Input(Local(0)), DagNode::Input(Local(1)))),
        ("iter"@, Structure::Complex(DagNode::Input(Local(2)), DagNode::F64(ZERO_BITS))),
    ]
}

/// The graph of a single-expression round, built from empty: `e1` is
/// `iter > 100`; `e2` is `zx² + zy² > 4`; `(x, y)` is the lowered step;
/// `it` is `iter + 1`.
pub open spec fn simple_round(
    step: SpecExpr,
    ms: Seq<Seq<DagCalc>>,
    rs: Seq<DagNode>,
    nodes: Seq<DagCalc>,
    e1: DagNode,
    e2: DagNode,
    x: DagNode,
    y: DagNode,
    it: DagNode,
) -> bool {
    let zx = DagNode::Input(Local(0));
    let zy = DagNode::Input(Local(1));
    let iter = DagNode::Input(Local(2));
    &&& ms.len() == 3
    &&& built(Seq::empty(), DagCalc::F64Gt(iter, DagNode::F64(HUNDRED_BITS)), ms[0], e1)
    &&& rs.len() == 4
    &&& runs(
        ms[0],
        seq![
            DagCalc::F64Mul(zx, zx),
            DagCalc::F64Mul(zy, zy),
            DagCalc::F64Add(rs[0], rs[1]),
            DagCalc::F64Gt(rs[2], DagNode::F64(FOUR_BITS)),
        ],
        rs,
        ms[1],
    )
    &&& e2 == rs[3]
    &&& lowers(simple_env(), false, ms[1], step, ms[2], Structure::Complex(x, y))
    &&& built(ms[2], DagCalc::F64Add(iter, DagNode::F64(ONE_BITS)), nodes, it)
}

/// The body of the single-expression entry point for the step `step`: the
/// prefix, one round scheduled on its graph, and the end.
pub open spec fn simple_body(step: SpecExpr, body: Seq<u8>) -> bool {
    exists|ms: Seq<Seq<DagCalc>>, rs: Seq<DagNode>, nodes: Seq<DagCalc>, e: Seq<DagNode>|
        #[trigger] simple_round(step, ms, rs, nodes, e[0], e[1], e[2], e[3], e[4]) && e.len() == 5 && ({
            let s = schedule(
                nodes,
                0,
                simple_prefix(),
                seq![ValType::F64, ValType::F64, ValType::F64],
                round_effects(e[0], e[1], e[2], e[3], e[4]),
            );
            body == body_bytes(s.locals, s.code + round_end(0, 1, 2))
        })
}


/// The scope of `initz`: `i`, and `c` in parameters 2 and 3.
pub open spec fn initz_env() -> Seq<(Seq<char>, Structure)> {
    seq![
        ("i"@, Structure::Complex(DagNode::F64(ZERO_BITS), DagNode::F64(ONE_BITS))),
        ("c"@, Structure::Complex(DagNode::Input(Local(2)), DagNode::Input(Local(3)))),
    ]
}

/// The scope of the fractal loop: `i`, `c` in parameters 2 and 3, `z` in
/// locals 4 and 5, `iter` in local 6.
pub open spec fn main_env() -> Seq<(Seq<char>, Structure)> {
    seq![
        ("i"@, Structure::Complex(DagNode::F64(ZERO_BITS), DagNode::F64(ONE_BITS))),
        ("c"@, Structure::Complex(DagNode::Input(Local(2)), DagNode::Input(Local(3)))),
        ("z"@, Structure::Complex(DagNode::Input(Local(4)), DagNode::Input(Local(5)))),
        ("iter"@, Structure::Complex(DagNode::Input(Local(6)), DagNode::F64(ZERO_BITS))),
    ]
}

/// The code that sets `z` (locals 4 and 5) before the loop, and the locals
/// declared by then: without `initz`, a call of the solver (function `solve`)
/// on the four parameters; with it, `initz` lowered and scheduled.
pub open spec fn main_prefix(initz: Option<SpecExpr>, solve: nat, code: Seq<u8>, locals: Seq<ValType>) -> bool {
    match initz {
        None => {
            &&& code == local_get_bytes(Local(0)) + local_get_bytes(Local(1)) + local_get_bytes(Local(2))
                + local_get_bytes(Local(3)) + seq![0x10u8] + uleb(solve) + local_set_bytes(5) + local_set_bytes(4)
            &&& locals == seq![ValType::F64, ValType::F64, ValType::F64]
        },
        Some(e) => exists|inodes: Seq<DagCalc>, x0: DagNode, y0: DagNode|
            #[trigger] lowers(initz_env(), false, Seq::empty(), e, inodes, Structure::Complex(x0, y0)) && ({
                let s = schedule(
                    inodes,
                    4,
                    Seq::empty(),
                    seq![ValType::F64, ValType::F64, ValType::F64],
                    seq![Effect(EffectType::Push, x0), Effect(EffectType::Push, y0)],
                );
                code == s.code + local_set_bytes(5) + local_set_bytes(4) && locals == s.locals
            }),
    }
}

/// The graph of a fractal round, built from empty: the limit lowered (real),
/// `e1` is `iter > limit`, `e2` the escape condition lowered, `(x, y)` the
/// step lowered, `it` is `iter + 1`.
pub open spec fn main_round(
    step: SpecExpr,
    escape2: SpecExpr,
    maxiter: SpecExpr,
    ms: Seq<Seq<DagCalc>>,
    lim: Structure,
    nodes: Seq<DagCalc>,
    e: Seq<DagNode>,
) -> bool {
    let iter = DagNode::Input(Local(6));
    &&& ms.len() == 4
    &&& e.len() == 5
    &&& lowers(main_env(), false, Seq::empty(), maxiter, ms[0], lim)
    &&& is_real(lim)
    &&& built(ms[0], DagCalc::F64Gt(iter, lim->Complex_0), ms[1], e[0])
    &&& lowers(main_env(), false, ms[1], escape2, ms[2], Structure::Bool(e[1]))
    &&& lowers(main_env(), false, ms[2], step, ms[3], Structure::Complex(e[2], e[3]))
    &&& built(ms[3], DagCalc::F64Add(iter, DagNode::F64(ONE_BITS)), nodes, e[4])
}

/// The body of the fractal entry point: the prefix that sets `z`, `iter = 0`,
/// `block` and `loop`, one round scheduled on its graph, and the end.
pub open spec fn main_body(
    initz: Option<SpecExpr>,
    step: SpecExpr,
    escape2: SpecExpr,
    maxiter: SpecExpr,
    solve: nat,
    body: Seq<u8>,
) -> bool {
    exists|code: Seq<u8>, locals: Seq<ValType>, ms: Seq<Seq<DagCalc>>, lim: Structure, nodes: Seq<DagCalc>, e: Seq<DagNode>|
        #[trigger] main_prefix(initz, solve, code, locals) && #[trigger] main_round(step, escape2, maxiter, ms, lim, nodes, e) && ({
            let s = schedule(
                nodes,
                4,
                code + f64_const_bytes(ZERO_BITS) + local_set_bytes(6) + seq![0x02u8, 0x40, 0x03, 0x40],
                locals,
                round_effects(e[0], e[1], e[2], e[3], e[4]),
            );
            body == body_bytes(s.locals, s.code + round_end(4, 5, 6))
        })
}


/// The scope of the solver: `i` and `c` (parameters 2 and 3) with zero
/// derivatives; `z` in parameters 0 and 1 with its derivatives in locals 4 to 7.
pub open spec fn solver_env() -> Seq<(Seq<char>, Structure)> {
    let zero = DagNode::F64(ZERO_BITS);
    seq![
        ("i"@, Structure::CxDeriv([zero, DagNode::F64(ONE_BITS), zero, zero, zero, zero])),
        ("c"@, Structure::CxDeriv([DagNode::Input(Local(2)), DagNode::Input(Local(3)), zero, zero, zero, zero])),
        ("z"@, Structure::CxDeriv([
            DagNode::Input(Local(0)),
            DagNode::Input(Local(1)),
            DagNode::Input(Local(4)),
            DagNode::Input(Local(5)),
            DagNode::Input(Local(6)),
            DagNode::Input(Local(7)),
        ])),
    ]
}

/// The graph of one Newton step, built from empty: `f` and its derivatives
/// lowered in the derivative mode, `q = f / f'`, and `(nx, ny) = z - q`.
pub open spec fn solver_round(step: SpecExpr, ms: Seq<Seq<DagCalc>>, d: Structure, q: Structure, nodes: Seq<DagCalc>, nx: DagNode, ny: DagNode) -> bool {
    &&& ms.len() == 2
    &&& lowers(solver_env(), true, Seq::empty(), step, ms[0], d)
    &&& d is CxDeriv
    &&& cx_div_rel(ms[0], dpart(d, 0), dpart(d, 1), ms[1], q)
    &&& cx_sub_rel(
        ms[1],
        Structure::Complex(DagNode::Input(Local(0)), DagNode::Input(Local(1))),
        q,
        nodes,
        Structure::Complex(nx, ny),
    )
}

/// Before a Newton step: `iter = 0` (local 8), `loop`, and `z'` = 1, `z''` = 0 in locals 4 to 7.
pub open spec fn solver_prefix() -> Seq<u8> {
    seq![0x41u8] + sleb(0) + local_set_bytes(8) + seq![0x03u8, 0x40] + f64_const_bytes(ONE_BITS)
        + local_set_bytes(4) + f64_const_bytes(ZERO_BITS) + local_set_bytes(5) + f64_const_bytes(ZERO_BITS)
        + local_set_bytes(6) + f64_const_bytes(ZERO_BITS) + local_set_bytes(7)
}

/// After a Newton step: store `z`, count, loop while fewer than ten steps,
/// then return `z`.
pub open spec fn solver_end() -> Seq<u8> {
    local_set_bytes(1) + local_set_bytes(0) + local_get_bytes(Local(8)) + seq![0x41u8] + sleb(1) + seq![0x6au8]
        + seq![0x22u8] + uleb(8) + seq![0x41u8] + sleb(10) + seq![0x49u8, 0x0d, 0x00, 0x0b]
        + local_get_bytes(Local(0)) + local_get_bytes(Local(1)) + seq![0x0bu8]
}

/// The body of the Newton solver for `step`.
pub open spec fn solver_body(step: SpecExpr, body: Seq<u8>) -> bool {
    exists|ms: Seq<Seq<DagCalc>>, d: Structure, q: Structure, nodes: Seq<DagCalc>, nx: DagNode, ny: DagNode|
        #[trigger] solver_round(step, ms, d, q, nodes, nx, ny) && ({
            let s = schedule(
                nodes,
                4,
                solver_prefix(),
                seq![ValType::F64, ValType::F64, ValType::F64, ValType::F64, ValType::I32],
                seq![Effect(EffectType::Push, nx), Effect(EffectType::Push, ny)],
            );
            body == body_bytes(s.locals, s.code + solver_end())
        })
}

/// The names in scope of `initz`.
pub open spec fn initz_scope() -> Seq<Seq<char>> {
    seq!["i"@, "c"@]
}

/// The names in scope of the step, the escape condition and the iteration limit.
pub open spec fn loop_scope() -> Seq<Seq<char>> {
    seq!["i"@, "c"@, "z"@, "iter"@]
}

/// The names in scope of the step in the Newton solver.
pub open spec fn solver_scope() -> Seq<Seq<char>> {
    seq!["i"@, "c"@, "z"@]
}

/// The names in scope of the single-expression shape.
pub open spec fn single_scope() -> Seq<Seq<char>> {
    seq!["i"@, "z"@, "iter"@]
}

/// The fractal shape lowers: `initz`, if given, is complex; the step is complex
/// (and, without `initz`, differentiable); the escape condition compares real
/// values; the iteration limit is real.
pub open spec fn fractal_lowers(
    initz: Option<SpecExpr>,
    step: SpecExpr,
    escape2: SpecExpr,
    maxiter: SpecExpr,
) -> bool {
    &&& initz matches Some(e) ==> complex_expr(e, initz_scope())
    &&& initz is None ==> deriv_expr(step, solver_scope())
    &&& complex_expr(step, loop_scope())
    &&& compare_expr(escape2, loop_scope())
    &&& real_expr(maxiter, loop_scope())
}

/// The parameters of the entry point and of the solver: `z` then `c`, real and imaginary parts.
pub open spec fn four_f64() -> Seq<ValType> {
    seq![ValType::F64, ValType::F64, ValType::F64, ValType::F64]
}

/// The same module around the open function: only its code and locals may differ.
pub open spec fn same_frame(a: ModuleModel, b: ModuleModel) -> bool {
    &&& a.types == b.types
    &&& a.funcs == b.funcs
    &&& a.bodies == b.bodies
    &&& a.exports == b.exports
    &&& a.in_func == b.in_func
    &&& a.func_type == b.func_type
    &&& a.param_count == b.param_count
}

/// The builder gained one finished function of type `(params) -> (results)`,
/// after those of `before`, and no export.
pub open spec fn added_function(
    before: ModuleModel,
    after: ModuleModel,
    params: Seq<ValType>,
    results: Seq<ValType>,
) -> bool {
    &&& after.funcs.len() == before.funcs.len() + 1
    &&& after.funcs.drop_last() == before.funcs
    &&& after.bodies.drop_last() == before.bodies
    &&& after.bodies.len() == after.funcs.len()
    &&& before.types.is_prefix_of(after.types)
    &&& after.types[after.funcs.last() as int] == (params, results)
    &&& !after.in_func
}

fn f64_types(n: usize) -> (r: Vec<ValType>)
    ensures
        r@ == Seq::new(n as nat, |i: int| ValType::F64),
{
    let mut v: Vec<ValType> = Vec::new();
    let mut i: usize = 0;
    while i < n
        invariant
            i <= n,
            v@ =~= Seq::new(i as nat, |i: int| ValType::F64),
        decreases n - i,
    {
        v.push(ValType::F64);
        i = i + 1;
    }
    v
}

/// The escape-time entry point `return_thing(initzx, initzy, cx, cy) -> f64`: `z`
/// starts at the lowered `initz`, or at the solver's result; each round leaves
/// when `iter > maxiter` or `escape2` holds, else sets `z` to the lowered step
/// and adds one to `iter`, which is returned.
#[verifier::rlimit(100)]
fn backend_main<A: Binary64>(
    builder: ModuleBuilder,
    expr_initz: Option<&Expr>,
    expr: &Expr,
    expr_escape2: &Expr,
    maxiter: &Expr,
    solve: Option<Func>,
) -> (r: Result<(ModuleBuilder, Func), CompileError>)
    requires
        builder.wf(),
        !builder@.in_func,
        expr_initz is None ==> solve is Some,
    ensures
        r matches Ok((m, f)) ==> m.wf() && added_function(builder@, m@, four_f64(), seq![ValType::F64])
            && f.0 == builder@.funcs.len() && m@.exports == builder@.exports,
            r is Ok ==> known_expr(expr@, loop_scope()) && known_expr(expr_escape2@, loop_scope())
                && known_expr(maxiter@, loop_scope()) && (expr_initz matches Some(e) ==> known_expr(
                e@,
                initz_scope(),
            )),
            (expr_initz matches Some(e) ==> complex_expr(e@, initz_scope())) && complex_expr(expr@, loop_scope())
                && compare_expr(expr_escape2@, loop_scope()) && real_expr(maxiter@, loop_scope()) ==> (
            r matches Err(e) ==> e == CompileError::TooLarge),
            (expr_initz matches Some(e) ==> complex_expr(e@, initz_scope())) && complex_expr(expr@, loop_scope())
                && compare_expr(expr_escape2@, loop_scope()) && real_expr(maxiter@, loop_scope())
                && initz_size(expr_initz) + expr_size(expr@) + expr_size(expr_escape2@) + expr_size(maxiter@)
                <= max_source_size() ==> r is Ok,
            r matches Ok((m, f)) ==> main_body(
                match expr_initz {
                    Some(e) => Some(e@),
                    None => None,
                },
                expr@,
                expr_escape2@,
                maxiter@,
                match solve {
                    Some(f) => f.0 as nat,
                    None => 0,
                },
                m@.bodies.last(),
            ),
{
    let mut mb = builder;
    let ghost old_funcs = mb@.funcs;
    let ghost old_bodies = mb@.bodies;
    let ghost old_types = mb@.types;
    let params = f64_types(4);
    let results = f64_types(1);
    assert(params@ =~= four_f64());
    assert(results@ =~= seq![ValType::F64]);
    let return_thing = mb.start_func(params.as_slice(), results.as_slice());
    let ghost started = mb@;
    let cx = mb.get_local_param(2);
    let cy = mb.get_local_param(3);
    let l0 = mb.add_local(ValType::F64);
    let l1 = mb.add_local(ValType::F64);
    let iter = mb.add_local(ValType::F64);

    let ghost initz_view = match expr_initz {
        Some(e) => Some(e@),
        None => None,
    };
    let ghost solve_idx = match solve {
        Some(f) => f.0 as nat,
        None => 0,
    };
    assert(mb@.code =~= Seq::<u8>::empty());
    assert(mb@.locals =~= seq![ValType::F64, ValType::F64, ValType::F64]);
    let mut mb = match expr_initz {
        Some(expr_initz) => {
            let ghost code0 = mb@.code;
            let ghost locals0 = mb@.locals;
            let mut fc: FuncContext<A> = FuncContext::new(mb);
            assert(fc.dag.spec_nodes() =~= Seq::<DagCalc>::empty());
            assert(fc.scope() =~= Seq::<(Seq<char>, Structure)>::empty());
            let i = Structure::Complex(fc.dag.f64_zero(), fc.dag.f64_one());
            fc.bind("i", i);
            let c = Structure::Complex(fc.dag.f64_input(cx), fc.dag.f64_input(cy));
            fc.bind("c", c);
            proof {
                reveal_strlit("i");
                reveal_strlit("c");
                assert(fc.names() =~= initz_scope());
                assert(fc.scope() =~= initz_env());
            }
            let ghost sc = fc.scope();
            let ghost n0 = fc.dag.spec_nodes();
            let initz = fc.do_expr(expr_initz)?;
            proof {
                lemma_lowers_shape(sc, false, n0, expr_initz@, fc.dag.spec_nodes(), initz);
        lemma_lowers_size(sc, false, n0, expr_initz@, fc.dag.spec_nodes(), initz);
                assert(scope_names(sc) =~= initz_scope());
            }
            let ghost inodes = fc.dag.spec_nodes();
            let (x0, y0) = (initz.cx()?, initz.cy()?);
            let effects = vec![Effect(EffectType::Push, x0), Effect(EffectType::Push, y0)];
            assert(effects@ =~= seq![Effect(EffectType::Push, x0), Effect(EffectType::Push, y0)]);
            let mut mb = fc.done(effects.as_slice())?;
            mb.local_set(l1);
            mb.local_set(l0);
            proof {
                let s = schedule(
                    inodes,
                    4,
                    Seq::empty(),
                    seq![ValType::F64, ValType::F64, ValType::F64],
                    seq![Effect(EffectType::Push, x0), Effect(EffectType::Push, y0)],
                );
                assert(mb@.code =~= s.code + local_set_bytes(5) + local_set_bytes(4));
                assert(lowers(initz_env(), false, Seq::empty(), expr_initz@, inodes, Structure::Complex(x0, y0)));
                assert(main_prefix(initz_view, solve_idx, mb@.code, mb@.locals));
            }
            mb
        },
        None => {
            let solve = solve.unwrap();
            let initzx = mb.get_local_param(0);
            let initzy = mb.get_local_param(1);
            mb.local_get(initzx);
            mb.local_get(initzy);
            mb.local_get(cx);
            mb.local_get(cy);
            mb.call(solve);
            mb.local_set(l1);
            mb.local_set(l0);
            proof {
                assert(mb@.code =~= local_get_bytes(Local(0)) + local_get_bytes(Local(1)) + local_get_bytes(Local(2))
                    + local_get_bytes(Local(3)) + seq![0x10u8] + uleb(solve_idx) + local_set_bytes(5) + local_set_bytes(4));
                assert(main_prefix(initz_view, solve_idx, mb@.code, mb@.locals));
            }
            mb
        },
    };

    assert(same_frame(mb@, started));
    assert(mb@.locals.len() <= 3 + 44 * initz_size(expr_initz));
    let ghost code_a = mb@.code;
    let ghost locals_a = mb@.locals;
    assert(main_prefix(initz_view, solve_idx, code_a, locals_a));
    mb.f64_const(ZERO_BITS);
    mb.local_set(iter);

    mb.start_block(BlockType::Empty);
    mb.start_loop(BlockType::Empty);

    proof {
        assert(mb@.code =~= code_a + f64_const_bytes(ZERO_BITS) + local_set_bytes(6) + seq![0x02u8, 0x40, 0x03, 0x40]);
    }
    let mut fc: FuncContext<A> = FuncContext::new(mb);
    assert(fc.dag.spec_nodes() =~= Seq::<DagCalc>::empty());
    assert(fc.scope() =~= Seq::<(Seq<char>, Structure)>::empty());
    let i = Structure::Complex(fc.dag.f64_zero(), fc.dag.f64_one());
    fc.bind("i", i);
    let c = Structure::Complex(fc.dag.f64_input(cx), fc.dag.f64_input(cy));
    fc.bind("c", c);
    let z = Structure::Complex(fc.dag.f64_input(l0), fc.dag.f64_input(l1));
    fc.bind("z", z);
    let iter_node = fc.dag.f64_input(iter);
    let it = Structure::Complex(iter_node, fc.dag.f64_zero());
    fc.bind("iter", it);
    proof {
        assert(fc.names() =~= loop_scope());
        assert(fc.scope() =~= main_env());
    }
    let ghost sc = fc.scope();
    let ghost n0 = fc.dag.spec_nodes();
    let limit = fc.do_expr(maxiter)?;
    proof {
        lemma_lowers_shape(sc, false, n0, maxiter@, fc.dag.spec_nodes(), limit);
        lemma_lowers_size(sc, false, n0, maxiter@, fc.dag.spec_nodes(), limit);
        assert(scope_names(sc) =~= loop_scope());
    }
    let ghost m0 = fc.dag.spec_nodes();
    let ghost lim = limit;
    let limit = limit.as_real_f64()?;
    let ghost n0 = fc.dag.spec_nodes();
    let escape1 = fc.dag.f64_gt(iter_node, limit);
    proof {
        lemma_built_len(n0, DagCalc::F64Gt(iter_node, limit), fc.dag.spec_nodes(), escape1);
    }
    let ghost m1 = fc.dag.spec_nodes();
    assert(fc.env_all(false) && fc.names() =~= loop_scope());
    let ghost sc = fc.scope();
    let ghost n0 = fc.dag.spec_nodes();
    let escape2 = fc.do_expr(expr_escape2)?;
    proof {
        lemma_lowers_shape(sc, false, n0, expr_escape2@, fc.dag.spec_nodes(), escape2);
        lemma_lowers_size(sc, false, n0, expr_escape2@, fc.dag.spec_nodes(), escape2);
        assert(scope_names(sc) =~= loop_scope());
    }
    let ghost m2 = fc.dag.spec_nodes();
    let escape2 = escape2.boolean()?;
    assert(fc.env_all(false) && fc.names() =~= loop_scope());
    let ghost sc = fc.scope();
    let ghost n0 = fc.dag.spec_nodes();
    let newz = fc.do_expr(expr)?;
    proof {
        lemma_lowers_shape(sc, false, n0, expr@, fc.dag.spec_nodes(), newz);
        lemma_lowers_size(sc, false, n0, expr@, fc.dag.spec_nodes(), newz);
        assert(scope_names(sc) =~= loop_scope());
    }
    let ghost m3 = fc.dag.spec_nodes();
    let (newzx, newzy) = (newz.cx()?, newz.cy()?);
    let one = fc.dag.f64_one();
    let ghost n0 = fc.dag.spec_nodes();
    let newiter = fc.dag.f64_add(iter_node, one);
    proof {
        lemma_built_len(n0, DagCalc::F64Add(iter_node, one), fc.dag.spec_nodes(), newiter);
    }
    let effects = vec![
        Effect(EffectType::BrIf(1), escape1),
        Effect(EffectType::BrIf(1), escape2),
        Effect(EffectType::Push, newzx),
        Effect(EffectType::Push, newzy),
        Effect(EffectType::Push, newiter),
    ];
    let ghost nodes = fc.dag.spec_nodes();
    let ghost e = seq![escape1, escape2, newzx, newzy, newiter];
    let ghost code_b = code_a + f64_const_bytes(ZERO_BITS) + local_set_bytes(6) + seq![0x02u8, 0x40, 0x03, 0x40];
    proof {
        assert(effects@ =~= round_effects(e[0], e[1], e[2], e[3], e[4]));
        assert(main_round(expr@, expr_escape2@, maxiter@, seq![m0, m1, m2, m3], lim, nodes, e));
    }
    let mut mb = fc.done(effects.as_slice())?;
    let ghost sched = schedule(nodes, 4, code_b, locals_a, round_effects(e[0], e[1], e[2], e[3], e[4]));
    assert(mb@.code == sched.code && mb@.locals == sched.locals);
    mb.local_set(iter);
    mb.local_set(l1);
    mb.local_set(l0);

    assert(same_frame(mb@, started));
    mb.br(0);
    mb.end_loop();
    mb.end_block();
    mb.local_get(iter);

    proof {
        assert(mb@.code + seq![0x0bu8] =~= sched.code + round_end(4, 5, 6));
    }
    mb.end_func();
    proof {
        assert(main_body(initz_view, expr@, expr_escape2@, maxiter@, solve_idx, mb@.bodies.last()));
        mb.lemma_model_ok();
        assert(mb@.funcs.drop_last() =~= old_funcs);
        assert(mb@.bodies.drop_last() =~= old_bodies);
        assert(old_types.is_prefix_of(mb@.types)) by {
            assert(old_types =~= mb@.types.subrange(0, old_types.len() as int));
        }
        assert(mb@.types[mb@.funcs.last() as int] == (four_f64(), seq![ValType::F64]));
    }
    Ok((mb, return_thing))
}

/// The Newton solver `solve(zx, zy, cx, cy) -> (zx', zy')`: ten rounds of
/// `z <- z - f(z) / f'(z)` for `f` the lowered `expr`, with `f'` from the
/// derivative mode.
#[verifier::rlimit(100)]
fn backend_solve<A: Binary64>(builder: ModuleBuilder, expr: &Expr) -> (r: Result<
    (ModuleBuilder, Func),
    CompileError,
>)
    requires
        builder.wf(),
        !builder@.in_func,
    ensures
        r matches Ok((m, f)) ==> m.wf() && added_function(
            builder@,
            m@,
            four_f64(),
            seq![ValType::F64, ValType::F64],
        ) && f.0 == builder@.funcs.len() && m@.exports == builder@.exports,
        deriv_expr(expr@, solver_scope()) ==> (r matches Err(e) ==> e == CompileError::TooLarge),
        r is Ok ==> deriv_expr(expr@, solver_scope()),
        deriv_expr(expr@, solver_scope()) && expr_size(expr@) <= max_source_size() ==> r is Ok,
        r matches Ok((m, f)) ==> solver_body(expr@, m@.bodies.last()),
{
    let mut mb = builder;
    let ghost old_funcs = mb@.funcs;
    let ghost old_bodies = mb@.bodies;
    let ghost old_types = mb@.types;
    let params = f64_types(4);
    let results = f64_types(2);
    assert(params@ =~= four_f64());
    assert(results@ =~= seq![ValType::F64, ValType::F64]);
    let solve = mb.start_func(params.as_slice(), results.as_slice());
    let ghost started = mb@;

    let zx = mb.get_local_param(0);
    let zy = mb.get_local_param(1);
    let cx = mb.get_local_param(2);
    let cy = mb.get_local_param(3);
    let zx1 = mb.add_local(ValType::F64);
    let zy1 = mb.add_local(ValType::F64);
    let zx2 = mb.add_local(ValType::F64);
    let zy2 = mb.add_local(ValType::F64);
    let iter = mb.add_local(ValType::I32);

    mb.i32_const(0);
    mb.local_set(iter);

    mb.start_loop(BlockType::Empty);
    mb.f64_const(ONE_BITS);
    mb.local_set(zx1);
    mb.f64_const(ZERO_BITS);
    mb.local_set(zy1);
    mb.f64_const(ZERO_BITS);
    mb.local_set(zx2);
    mb.f64_const(ZERO_BITS);
    mb.local_set(zy2);
    proof {
        assert(mb@.code =~= solver_prefix());
        assert(mb@.locals =~= seq![ValType::F64, ValType::F64, ValType::F64, ValType::F64, ValType::I32]);
    }
    let mut fc: FuncContext<A> = FuncContext::new(mb);
    assert(fc.dag.spec_nodes() =~= Seq::<DagCalc>::empty());
    assert(fc.scope() =~= Seq::<(Seq<char>, Structure)>::empty());
    let i = fc.dconst(fc.dag.f64_zero(), fc.dag.f64_one());
    fc.bind("i", i);
    let c = fc.dconst(fc.dag.f64_input(cx), fc.dag.f64_input(cy));
    fc.bind("c", c);
    let z = Structure::CxDeriv(
        [
            fc.dag.f64_input(zx),
            fc.dag.f64_input(zy),
            fc.dag.f64_input(zx1),
            fc.dag.f64_input(zy1),
            fc.dag.f64_input(zx2),
            fc.dag.f64_input(zy2),
        ],
    );
    fc.bind("z", z);
    proof {
        assert(fc.names() =~= solver_scope());
        assert(fc.scope() =~= solver_env());
    }
    let ghost sc = fc.scope();
    let ghost n0 = fc.dag.spec_nodes();
    let stuff = fc.do_expr_deriv(expr)?;
    proof {
        lemma_lowers_shape(sc, true, n0, expr@, fc.dag.spec_nodes(), stuff);
        lemma_lowers_size(sc, true, n0, expr@, fc.dag.spec_nodes(), stuff);
        assert(scope_names(sc) =~= solver_scope());
    }
    let d = stuff.derivs()?;
    let ghost n1 = fc.dag.spec_nodes();
    assert(d@[0] == dpart(stuff, 0) && d@[1] == dpart(stuff, 1));
    let step = fc.cx_div(&d[0], &d[1])?;
    proof {
        lemma_cx_len(Op::Div, n1, d@[0], d@[1], fc.dag.spec_nodes(), step);
    }
    let old_z = Structure::Complex(fc.dag.f64_input(zx), fc.dag.f64_input(zy));
    let ghost n2 = fc.dag.spec_nodes();
    let newz = fc.cx_sub(&old_z, &step)?;
    proof {
        lemma_cx_len(Op::Sub, n2, old_z, step, fc.dag.spec_nodes(), newz);
    }
    let (nx, ny) = (newz.cx()?, newz.cy()?);
    let effects = vec![Effect(EffectType::Push, nx), Effect(EffectType::Push, ny)];
    let ghost nodes = fc.dag.spec_nodes();
    proof {
        assert(effects@ =~= seq![Effect(EffectType::Push, nx), Effect(EffectType::Push, ny)]);
        assert(solver_round(expr@, seq![n1, n2], stuff, step, nodes, nx, ny));
    }
    let mut mb = fc.done(effects.as_slice())?;
    let ghost sched = schedule(
        nodes,
        4,
        solver_prefix(),
        seq![ValType::F64, ValType::F64, ValType::F64, ValType::F64, ValType::I32],
        seq![Effect(EffectType::Push, nx), Effect(EffectType::Push, ny)],
    );
    assert(mb@.code == sched.code && mb@.locals == sched.locals);
    assert(same_frame(mb@, started));
    mb.local_set(zy);
    mb.local_set(zx);

    mb.local_get(iter);
    mb.i32_const(1);
    mb.i32_add();
    mb.local_tee(iter);

    mb.i32_const(10);
    mb.i32_lt_u();
    mb.br_if(0);

    mb.end_loop();

    mb.local_get(zx);
    mb.local_get(zy);

    proof {
        assert(mb@.code + seq![0x0bu8] =~= sched.code + solver_end());
    }
    mb.end_func();
    proof {
        assert(solver_body(expr@, mb@.bodies.last()));
        mb.lemma_model_ok();
        assert(mb@.funcs.drop_last() =~= old_funcs);
        assert(mb@.bodies.drop_last() =~= old_bodies);
        assert(old_types =~= mb@.types.subrange(0, old_types.len() as int));
    }
    Ok((mb, solve))
}

/// The escape-time entry point `return_thing() -> f64` of a single expression:
/// `z` starts at `0.75 + 0.75i`; each round leaves when `iter > 100` or
/// `sqabs(z) > 4`, else sets `z` to the lowered `expr` and adds one to `iter`,
/// which is returned.
#[verifier::rlimit(100)]
fn backend_simple<A: Binary64>(builder: ModuleBuilder, expr: &Expr) -> (r: Result<
    (ModuleBuilder, Func),
    CompileError,
>)
    requires
        builder.wf(),
        !builder@.in_func,
    ensures
        r matches Ok((m, f)) ==> m.wf() && added_function(
            builder@,
            m@,
            Seq::empty(),
            seq![ValType::F64],
        ) && f.0 == builder@.funcs.len() && m@.exports == builder@.exports,
        complex_expr(expr@, single_scope()) ==> (r matches Err(e) ==> e == CompileError::TooLarge),
        r is Ok ==> known_expr(expr@, single_scope()),
        complex_expr(expr@, single_scope()) && expr_size(expr@) <= max_source_size() ==> r is Ok,
        r matches Ok((m, f)) ==> simple_body(expr@, m@.bodies.last()),
{
    let mut mb = builder;
    let ghost old_funcs = mb@.funcs;
    let ghost old_bodies = mb@.bodies;
    let ghost old_types = mb@.types;
    let params = f64_types(0);
    let results = f64_types(1);
    assert(params@ =~= Seq::<ValType>::empty());
    assert(results@ =~= seq![ValType::F64]);
    let return_thing = mb.start_func(params.as_slice(), results.as_slice());
    let ghost started = mb@;
    let l0 = mb.add_local(ValType::F64);
    let l1 = mb.add_local(ValType::F64);
    let iter = mb.add_local(ValType::F64);

    mb.f64_const(THREE_QUARTERS_BITS);
    mb.local_set(l0);
    mb.f64_const(THREE_QUARTERS_BITS);
    mb.local_set(l1);
    mb.f64_const(ZERO_BITS);
    mb.local_set(iter);

    mb.start_block(BlockType::Empty);
    mb.start_loop(BlockType::Empty);
    proof {
        assert(mb@.code =~= simple_prefix());
        assert(mb@.locals =~= seq![ValType::F64, ValType::F64, ValType::F64]);
    }

    let mut fc: FuncContext<A> = FuncContext::new(mb);
    assert(fc.dag.spec_nodes() =~= Seq::<DagCalc>::empty());
    assert(fc.scope() =~= Seq::<(Seq<char>, Structure)>::empty());
    let i = Structure::Complex(fc.dag.f64_zero(), fc.dag.f64_one());
    fc.bind("i", i);
    let zx = fc.dag.f64_input(l0);
    let zy = fc.dag.f64_input(l1);
    fc.bind("z", Structure::Complex(zx, zy));
    let iter_node = fc.dag.f64_input(iter);
    let it = Structure::Complex(iter_node, fc.dag.f64_zero());
    fc.bind("iter", it);
    proof {
        assert(fc.names() =~= single_scope());
        assert(fc.scope() =~= simple_env());
    }
    let limit = fc.dag.f64_const(HUNDRED_BITS);
    let ghost nb = fc.dag.spec_nodes();
    let escape1 = fc.dag.f64_gt(iter_node, limit);
    proof {
        lemma_built_len(nb, DagCalc::F64Gt(iter_node, limit), fc.dag.spec_nodes(), escape1);
    }
    let ghost m_a = fc.dag.spec_nodes();
    let ghost mut ns = seq![m_a];
    let ghost mut cs = Seq::<DagCalc>::empty();
    let ghost mut rs = Seq::<DagNode>::empty();
    proof {
        lemma_chain_start(m_a);
    }
    let ghost nb = fc.dag.spec_nodes();
    let xx = fc.dag.f64_mul(zx, zx);
    proof {
        lemma_built_len(nb, DagCalc::F64Mul(zx, zx), fc.dag.spec_nodes(), xx);
        lemma_chain_push(ns, cs, rs, DagCalc::F64Mul(zx, zx), fc.dag.spec_nodes(), xx);
        ns = ns.push(fc.dag.spec_nodes());
        cs = cs.push(DagCalc::F64Mul(zx, zx));
        rs = rs.push(xx);
    }
    let ghost nb = fc.dag.spec_nodes();
    let yy = fc.dag.f64_mul(zy, zy);
    proof {
        lemma_built_len(nb, DagCalc::F64Mul(zy, zy), fc.dag.spec_nodes(), yy);
        lemma_chain_push(ns, cs, rs, DagCalc::F64Mul(zy, zy), fc.dag.spec_nodes(), yy);
        ns = ns.push(fc.dag.spec_nodes());
        cs = cs.push(DagCalc::F64Mul(zy, zy));
        rs = rs.push(yy);
    }
    let ghost nb = fc.dag.spec_nodes();
    let rr = fc.dag.f64_add(xx, yy);
    proof {
        lemma_built_len(nb, DagCalc::F64Add(xx, yy), fc.dag.spec_nodes(), rr);
        lemma_chain_push(ns, cs, rs, DagCalc::F64Add(xx, yy), fc.dag.spec_nodes(), rr);
        ns = ns.push(fc.dag.spec_nodes());
        cs = cs.push(DagCalc::F64Add(xx, yy));
        rs = rs.push(rr);
    }
    let four = fc.dag.f64_const(FOUR_BITS);
    let ghost nb = fc.dag.spec_nodes();
    let escape2 = fc.dag.f64_gt(rr, four);
    proof {
        lemma_built_len(nb, DagCalc::F64Gt(rr, four), fc.dag.spec_nodes(), escape2);
        lemma_chain_push(ns, cs, rs, DagCalc::F64Gt(rr, four), fc.dag.spec_nodes(), escape2);
        ns = ns.push(fc.dag.spec_nodes());
        cs = cs.push(DagCalc::F64Gt(rr, four));
        rs = rs.push(escape2);
    }
    assert(fc.env_all(false) && fc.names() =~= single_scope());
    let ghost sc = fc.scope();
    let ghost n0 = fc.dag.spec_nodes();
    proof {
        lemma_chain_runs(ns, cs, rs);
        assert(cs =~= seq![
            DagCalc::F64Mul(DagNode::Input(Local(0)), DagNode::Input(Local(0))),
            DagCalc::F64Mul(DagNode::Input(Local(1)), DagNode::Input(Local(1))),
            DagCalc::F64Add(rs[0], rs[1]),
            DagCalc::F64Gt(rs[2], DagNode::F64(FOUR_BITS)),
        ]);
    }
    let newz = fc.do_expr(expr)?;
    let ghost m_c = fc.dag.spec_nodes();
    proof {
        lemma_lowers_shape(sc, false, n0, expr@, fc.dag.spec_nodes(), newz);
        lemma_lowers_size(sc, false, n0, expr@, fc.dag.spec_nodes(), newz);
        assert(scope_names(sc) =~= single_scope());
    }
    let (newzx, newzy) = (newz.cx()?, newz.cy()?);
    let one = fc.dag.f64_one();
    let ghost nb = fc.dag.spec_nodes();
    let newiter = fc.dag.f64_add(iter_node, one);
    proof {
        lemma_built_len(nb, DagCalc::F64Add(iter_node, one), fc.dag.spec_nodes(), newiter);
    }
    let effects = vec![
        Effect(EffectType::BrIf(1), escape1),
        Effect(EffectType::BrIf(1), escape2),
        Effect(EffectType::Push, newzx),
        Effect(EffectType::Push, newzy),
        Effect(EffectType::Push, newiter),
    ];
    let ghost nodes = fc.dag.spec_nodes();
    let ghost e = seq![escape1, escape2, newzx, newzy, newiter];
    proof {
        assert(effects@ =~= round_effects(e[0], e[1], e[2], e[3], e[4]));
        assert(simple_round(expr@, seq![m_a, n0, m_c], rs, nodes, e[0], e[1], e[2], e[3], e[4]));
    }
    let mut mb = fc.done(effects.as_slice())?;
    let ghost sched = schedule(
        nodes,
        0,
        simple_prefix(),
        seq![ValType::F64, ValType::F64, ValType::F64],
        round_effects(e[0], e[1], e[2], e[3], e[4]),
    );
    assert(mb@.code == sched.code && mb@.locals == sched.locals);
    assert(same_frame(mb@, started));
    mb.local_set(iter);
    mb.local_set(l1);
    mb.local_set(l0);

    mb.br(0);
    mb.end_loop();
    mb.end_block();
    mb.local_get(iter);

    proof {
        assert(mb@.code + seq![0x0bu8] =~= sched.code + round_end(0, 1, 2));
    }
    mb.end_func();
    proof {
        assert(simple_body(expr@, mb@.bodies.last()));
        mb.lemma_model_ok();
        assert(mb@.funcs.drop_last() =~= old_funcs);
        assert(mb@.bodies.drop_last() =~= old_bodies);
        assert(old_types =~= mb@.types.subrange(0, old_types.len() as int));
    }
    Ok((mb, return_thing))
}

/// The name of the entry point, `return_thing`, as bytes.
pub open spec fn entry_name() -> Seq<u8> {
    seq![0x72u8, 0x65, 0x74, 0x75, 0x72, 0x6e, 0x5f, 0x74, 0x68, 0x69, 0x6e, 0x67]
}

/// A well-formed module whose functions have the given types, in order, and
/// whose one export is the last of them, named `return_thing`.
pub open spec fn fractal_module(bytes: Seq<u8>, fn_types: Seq<(Seq<ValType>, Seq<ValType>)>) -> bool {
    exists|m: ModuleModel|
        {
            &&& #[trigger] module_bytes(m) == bytes
            &&& model_ok(m)
            &&& exports_ok(m)
            &&& m.funcs.len() == fn_types.len()
            &&& forall|k: int| 0 <= k < fn_types.len() ==> m.types[#[trigger] m.funcs[k] as int] == fn_types[k]
            &&& m.exports == seq![(entry_name(), 0u8, (fn_types.len() - 1) as usize)]
        }
}

/// The function types of the fractal shape: with the Newton seed, the solver
/// comes first.
pub open spec fn fractal_fn_types(newton: bool) -> Seq<(Seq<ValType>, Seq<ValType>)> {
    if newton {
        seq![(four_f64(), seq![ValType::F64, ValType::F64]), (four_f64(), seq![ValType::F64])]
    } else {
        seq![(four_f64(), seq![ValType::F64])]
    }
}

proof fn lemma_fractal_module(m: ModuleModel, fn_types: Seq<(Seq<ValType>, Seq<ValType>)>)
    requires
        model_ok(m),
        exports_ok(m),
        m.funcs.len() == fn_types.len(),
        forall|k: int| 0 <= k < fn_types.len() ==> m.types[#[trigger] m.funcs[k] as int] == fn_types[k],
        m.exports == seq![(entry_name(), 0u8, (fn_types.len() - 1) as usize)],
    ensures
        fractal_module(module_bytes(m), fn_types),
        well_formed_module(module_bytes(m)),
{
}

fn export_entry(mb: &mut ModuleBuilder, f: Func)
    requires
        old(mb).wf(),
    ensures
        final(mb).wf(),
        final(mb)@ == (ModuleModel {
            exports: old(mb)@.exports.push((entry_name(), 0u8, f.0)),
            ..old(mb)@
        }),
{
    let name = "return_thing";
    proof {
        reveal_strlit("return_thing");
        assert(vstd::string::is_ascii(name));
        vstd::string::is_ascii_spec_bytes(name);
        assert(name.spec_bytes() =~= entry_name());
    }
    mb.export_func(f, name);
}

/// Compiles the fractal shape. With `expr_initz`, `z` starts at its value;
/// without, a Newton solver applied to `expr` gives the start from the
/// entry point's first two parameters.
#[verifier::rlimit(100)]
pub fn backend<A: Binary64>(
    expr_initz: Option<&Expr>,
    expr: &Expr,
    expr_escape2: &Expr,
    maxiter: &Expr,
) -> (r: Result<Vec<u8>, CompileError>)
    ensures
        r matches Ok(bytes) ==> fractal_module(bytes@, fractal_fn_types(expr_initz is None))
            && well_formed_module(bytes@),
        fractal_lowers(
            match expr_initz {
                Some(e) => Some(e@),
                None => None,
            },
            expr@,
            expr_escape2@,
            maxiter@,
        ) ==> (r matches Err(e) ==> e == CompileError::TooLarge),
        r is Ok ==> known_expr(expr@, loop_scope()) && known_expr(expr_escape2@, loop_scope())
            && known_expr(maxiter@, loop_scope()) && (expr_initz matches Some(e) ==> known_expr(
            e@,
            initz_scope(),
        )),
        r is Ok && expr_initz is None ==> deriv_expr(expr@, solver_scope()),
        fractal_lowers(
            match expr_initz {
                Some(e) => Some(e@),
                None => None,
            },
            expr@,
            expr_escape2@,
            maxiter@,
        ) && initz_size(expr_initz) + expr_size(expr@) + expr_size(expr_escape2@) + expr_size(maxiter@)
            <= max_source_size() ==> r is Ok,
        r matches Ok(bytes) ==> exists|m: ModuleModel|
            #[trigger] module_bytes(m) == bytes@ && m.bodies.len() >= 1 && main_body(
                match expr_initz {
                    Some(e) => Some(e@),
                    None => None,
                },
                expr@,
                expr_escape2@,
                maxiter@,
                0,
                m.bodies.last(),
            ),
        r matches Ok(bytes) ==> (expr_initz is None ==> exists|m: ModuleModel|
            #[trigger] module_bytes(m) == bytes@ && m.bodies.len() == 2 && solver_body(expr@, m.bodies[0])),
{
    let mb = ModuleBuilder::new();
    if expr_initz.is_none() {
        let (mb, solve) = backend_solve::<A>(mb, expr)?;
        let ghost after_solve = mb@;
        proof {
            mb.lemma_model_ok();
            assert(solver_body(expr@, after_solve.bodies[0]));
        }
        let (mut mb, main) = backend_main::<A>(mb, None, expr, expr_escape2, maxiter, Some(solve))?;
        export_entry(&mut mb, main);
        proof {
            let m = mb@;
            mb.lemma_model_ok();
            assert(m.funcs.drop_last()[0] == m.funcs[0]);
            assert(m.bodies.drop_last()[0] == m.bodies[0]);
            assert(m.bodies[0] == after_solve.bodies[0]);
            assert(m.funcs[0] == after_solve.funcs[0]);
            assert(after_solve.types.is_prefix_of(m.types));
            assert(m.types[m.funcs[0] as int] == after_solve.types[after_solve.funcs[0] as int]);
            lemma_fractal_module(m, fractal_fn_types(true));
        }
        Ok(mb.into_vec())
    } else {
        let (mut mb, main) = backend_main::<A>(mb, expr_initz, expr, expr_escape2, maxiter, None)?;
        export_entry(&mut mb, main);
        proof {
            mb.lemma_model_ok();
            lemma_fractal_module(mb@, fractal_fn_types(false));
        }
        Ok(mb.into_vec())
    }
}

/// Compiles the single-expression shape: `return_thing() -> f64`, whose
/// result is the iteration count of the escape-time loop (`z` from
/// `0.75 + 0.75i`, leaving when `iter > 100` or `sqabs(z) > 4`). A step that
/// is a constant such as `1 + 2 * 3` therefore escapes after one round and
/// gives `1`: the count, not the constant's value.
pub fn backend_single<A: Binary64>(expr: &Expr) -> (r: Result<Vec<u8>, CompileError>)
    ensures
        r matches Ok(bytes) ==> fractal_module(bytes@, seq![(Seq::<ValType>::empty(), seq![ValType::F64])])
            && well_formed_module(bytes@),
        complex_expr(expr@, single_scope()) ==> (r matches Err(e) ==> e == CompileError::TooLarge),
        r is Ok ==> known_expr(expr@, single_scope()),
        complex_expr(expr@, single_scope()) && expr_size(expr@) <= max_source_size() ==> r is Ok,
        r matches Ok(bytes) ==> exists|m: ModuleModel|
            #[trigger] module_bytes(m) == bytes@ && m.bodies.len() == 1 && simple_body(expr@, m.bodies[0]),
{
    let mb = ModuleBuilder::new();
    let (mut mb, main) = backend_simple::<A>(mb, expr)?;
    export_entry(&mut mb, main);
    proof {
        assert(mb@.bodies.len() == 1);
        assert(simple_body(expr@, mb@.bodies[0]));
        mb.lemma_model_ok();
        lemma_fractal_module(mb@, seq![(Seq::<ValType>::empty(), seq![ValType::F64])]);
    }
    Ok(mb.into_vec())
}

} // verus!
