//! A value-numbered graph of scalar double operations, with algebraic
//! simplification at construction and scheduling into straight-line code.

use crate::binary64::{Binary64, is_one_bits, is_zero_bits, neg_bits, negate_bits, NEG_ZERO_BITS, ONE_BITS, ZERO_BITS};
use crate::leb128::uleb;
use crate::module_builder::{Local, ModuleBuilder, ModuleModel, ValType, le_bytes, with_code};
use core::marker::PhantomData;
use vstd::prelude::*;

verus! {

/// A handle on a value of the graph.
#[derive(Clone, Copy, Debug, PartialEq, Eq, Hash, Structural)]
pub enum DagNode {
    /// A double constant, held by its bit pattern so that equality is total.
    F64(u64),
    /// The computation at this index of the graph.
    Node(usize),
    /// A local of the function, read directly.
    Input(Local),
}

/// An operation of the graph on the handles of its operands.
#[derive(Clone, Copy, Debug, PartialEq, Eq, Hash, Structural)]
pub enum DagCalc {
    F64Neg(DagNode),
    F64Add(DagNode, DagNode),
    F64Sub(DagNode, DagNode),
    F64Mul(DagNode, DagNode),
    F64Div(DagNode, DagNode),
    F64Lt(DagNode, DagNode),
    F64Gt(DagNode, DagNode),
    F64Le(DagNode, DagNode),
    F64Ge(DagNode, DagNode),
}

/// The graph: its computations in order of creation, each held once, so that
/// value numbering finds a computation by its position. `A` supplies the
/// arithmetic that folds constants.
pub struct Dag<A> {
    nodes: Vec<DagCalc>,
    arith: PhantomData<A>,
}

/// What to do with the value of an effect's node once it is on the stack.
#[derive(Clone, Copy, Debug, PartialEq, Eq, Structural)]
pub enum EffectType {
    /// Branch to the label if the value (an `i32`) is not zero.
    BrIf(usize),
    /// Leave the value on the stack.
    Push,
}

/// A node to evaluate, and what to do with its value.
#[derive(Clone, Copy, Debug, PartialEq, Eq, Structural)]
pub struct Effect(pub EffectType, pub DagNode);

/// The opcode of a computation.
pub open spec fn calc_opcode(c: DagCalc) -> u8 {
    match c {
        DagCalc::F64Neg(_) => 0x9a,
        DagCalc::F64Add(_, _) => 0xa0,
        DagCalc::F64Sub(_, _) => 0xa1,
        DagCalc::F64Mul(_, _) => 0xa2,
        DagCalc::F64Div(_, _) => 0xa3,
        DagCalc::F64Lt(_, _) => 0x63,
        DagCalc::F64Gt(_, _) => 0x64,
        DagCalc::F64Le(_, _) => 0x65,
        DagCalc::F64Ge(_, _) => 0x66,
    }
}

/// The type of a computation's result: `i32` for comparisons, else `f64`.
pub open spec fn calc_type(c: DagCalc) -> ValType {
    match c {
        DagCalc::F64Lt(_, _) | DagCalc::F64Gt(_, _) | DagCalc::F64Le(_, _) | DagCalc::F64Ge(
            _,
            _,
        ) => ValType::I32,
        _ => ValType::F64,
    }
}

/// Reference counts of the computations, saturating at two: a computation met
/// for the first time has its operands counted too.
pub open spec fn count_uses(nodes: Seq<DagCalc>, counts: Seq<u8>, n: DagNode) -> Seq<u8>
    decreases rank(n),
{
    match n {
        DagNode::Node(i) => if i < nodes.len() && i < counts.len() {
            if counts[i as int] > 0 {
                counts.update(i as int, 2)
            } else {
                let ops = operands(nodes[i as int]);
                let c1 = counts.update(i as int, 1);
                let c2 = if rank(ops[0]) <= i {
                    count_uses(nodes, c1, ops[0])
                } else {
                    c1
                };
                if ops.len() == 2 && rank(ops[1]) <= i {
                    count_uses(nodes, c2, ops[1])
                } else {
                    c2
                }
            }
        } else {
            counts
        },
        _ => counts,
    }
}

/// Reference counts over the roots of a sequence of effects.
pub open spec fn count_effects(nodes: Seq<DagCalc>, counts: Seq<u8>, effects: Seq<Effect>) -> Seq<
    u8,
>
    decreases effects.len(),
{
    if effects.len() == 0 {
        counts
    } else {
        count_uses(nodes, count_effects(nodes, counts, effects.drop_last()), effects.last().1)
    }
}

/// The code scheduled so far, the locals it declared, and the local that holds
/// each computation already spilled.
pub struct Schedule {
    pub code: Seq<u8>,
    pub locals: Seq<ValType>,
    pub placed: Seq<Option<Local>>,
}

pub open spec fn local_get_bytes(l: Local) -> Seq<u8> {
    seq![0x20u8] + uleb(l.0 as nat)
}

/// Depth-first scheduling of `n`: a spilled computation is read from its local;
/// otherwise the operands come first, in order, then the opcode, and a
/// computation referenced more than once is kept in a fresh local by `local.tee`.
/// `base` is the number of parameters, which come before the locals.
pub open spec fn emit_node(
    nodes: Seq<DagCalc>,
    counts: Seq<u8>,
    base: nat,
    s: Schedule,
    n: DagNode,
) -> Schedule
    decreases rank(n),
{
    match n {
        DagNode::F64(b) => Schedule { code: s.code + seq![0x44u8] + le_bytes(b as nat, 8), ..s },
        DagNode::Input(l) => Schedule { code: s.code + local_get_bytes(l), ..s },
        DagNode::Node(i) => if i >= nodes.len() || i >= s.placed.len() {
            s
        } else if s.placed[i as int] is Some {
            Schedule { code: s.code + local_get_bytes(s.placed[i as int]->0), ..s }
        } else {
            let c = nodes[i as int];
            let ops = operands(c);
            let s1 = if rank(ops[0]) <= i {
                emit_node(nodes, counts, base, s, ops[0])
            } else {
                s
            };
            let s2 = if ops.len() == 2 && rank(ops[1]) <= i {
                emit_node(nodes, counts, base, s1, ops[1])
            } else {
                s1
            };
            let code = s2.code + seq![calc_opcode(c)];
            if i < counts.len() && counts[i as int] > 1 {
                let l = Local((base + s2.locals.len()) as usize);
                Schedule {
                    code: code + seq![0x22u8] + uleb(l.0 as nat),
                    locals: s2.locals.push(calc_type(c)),
                    placed: s2.placed.update(i as int, Some(l)),
                }
            } else {
                Schedule { code, ..s2 }
            }
        },
    }
}

/// The bytes that apply an effect's kind to the value on the stack.
pub open spec fn effect_type_bytes(t: EffectType) -> Seq<u8> {
    match t {
        EffectType::BrIf(label) => seq![0x0du8] + uleb(label as nat),
        EffectType::Push => seq![],
    }
}

/// Scheduling of a sequence of effects, in order.
pub open spec fn emit_effects(
    nodes: Seq<DagCalc>,
    counts: Seq<u8>,
    base: nat,
    s: Schedule,
    effects: Seq<Effect>,
) -> Schedule
    decreases effects.len(),
{
    if effects.len() == 0 {
        s
    } else {
        let s1 = emit_effects(nodes, counts, base, s, effects.drop_last());
        let s2 = emit_node(nodes, counts, base, s1, effects.last().1);
        Schedule { code: s2.code + effect_type_bytes(effects.last().0), ..s2 }
    }
}

/// Scheduling `effects` on the graph `nodes` after the code `code` with the
/// declared locals `locals`, `base` parameters coming first: what `Dag::emit` does.
pub open spec fn schedule(
    nodes: Seq<DagCalc>,
    base: nat,
    code: Seq<u8>,
    locals: Seq<ValType>,
    effects: Seq<Effect>,
) -> Schedule {
    emit_effects(
        nodes,
        count_effects(nodes, Seq::new(nodes.len(), |i: int| 0u8), effects),
        base,
        Schedule { code, locals, placed: Seq::new(nodes.len(), |i: int| None::<Local>) },
        effects,
    )
}

/// The number of computations not spilled yet.
pub open spec fn unplaced(p: Seq<Option<Local>>) -> nat
    decreases p.len(),
{
    if p.len() == 0 {
        0
    } else {
        unplaced(p.drop_last()) + (if p.last() is None {
            1nat
        } else {
            0nat
        })
    }
}

proof fn lemma_unplaced_bound(p: Seq<Option<Local>>)
    ensures
        unplaced(p) <= p.len(),
    decreases p.len(),
{
    if p.len() > 0 {
        lemma_unplaced_bound(p.drop_last());
    }
}

proof fn lemma_unplaced_update(p: Seq<Option<Local>>, i: int, l: Local)
    requires
        0 <= i < p.len(),
        p[i] is None,
    ensures
        unplaced(p.update(i, Some(l))) + 1 == unplaced(p),
    decreases p.len(),
{
    let q = p.update(i, Some(l));
    if i < p.len() - 1 {
        assert(q.drop_last() =~= p.drop_last().update(i, Some(l)));
        lemma_unplaced_update(p.drop_last(), i, l);
    } else {
        assert(q.drop_last() =~= p.drop_last());
    }
}

impl EffectType {
    /// Emits what applies this kind to the value on the stack.
    pub fn emit(&self, mb: &mut ModuleBuilder)
        requires
            old(mb).wf(),
            old(mb)@.in_func,
        ensures
            final(mb).wf(),
            final(mb)@ == with_code(old(mb)@, effect_type_bytes(*self)),
    {
        match self {
            EffectType::BrIf(label) => mb.br_if(*label),
            EffectType::Push => {
                assert(old(mb)@.code + seq![] =~= old(mb)@.code);
            },
        }
    }
}

fn calc_result_type(c: DagCalc) -> (r: ValType)
    ensures
        r == calc_type(c),
{
    match c {
        DagCalc::F64Lt(_, _) | DagCalc::F64Gt(_, _) | DagCalc::F64Le(_, _) | DagCalc::F64Ge(
            _,
            _,
        ) => ValType::I32,
        _ => ValType::F64,
    }
}

fn emit_opcode(mb: &mut ModuleBuilder, c: DagCalc)
    requires
        old(mb).wf(),
        old(mb)@.in_func,
    ensures
        final(mb).wf(),
        final(mb)@ == with_code(old(mb)@, seq![calc_opcode(c)]),
{
    match c {
        DagCalc::F64Neg(_) => mb.f64_neg(),
        DagCalc::F64Add(_, _) => mb.f64_add(),
        DagCalc::F64Sub(_, _) => mb.f64_sub(),
        DagCalc::F64Mul(_, _) => mb.f64_mul(),
        DagCalc::F64Div(_, _) => mb.f64_div(),
        DagCalc::F64Lt(_, _) => mb.f64_lt(),
        DagCalc::F64Gt(_, _) => mb.f64_gt(),
        DagCalc::F64Le(_, _) => mb.f64_le(),
        DagCalc::F64Ge(_, _) => mb.f64_ge(),
    }
}

/// The schedule state read off a builder and a placement.
pub open spec fn schedule_of(m: ModuleModel, placed: Seq<Option<Local>>) -> Schedule {
    Schedule { code: m.code, locals: m.locals, placed }
}

/// An arithmetic operation on two constants, which the host's arithmetic folds.
pub open spec fn folds(c: DagCalc) -> bool {
    match c {
        DagCalc::F64Add(DagNode::F64(_), DagNode::F64(_)) => true,
        DagCalc::F64Sub(DagNode::F64(_), DagNode::F64(_)) => true,
        DagCalc::F64Mul(DagNode::F64(_), DagNode::F64(_)) => true,
        DagCalc::F64Div(DagNode::F64(_), DagNode::F64(_)) => true,
        _ => false,
    }
}

/// Building `c` on the graph `before` gives the graph `after` and the handle
/// `r`: a constant chosen by the host where `c` folds, else `build`.
pub open spec fn built(before: Seq<DagCalc>, c: DagCalc, after: Seq<DagCalc>, r: DagNode) -> bool {
    if folds(c) {
        after == before && r is F64
    } else {
        (after, r) == build(before, c)
    }
}

/// The graphs `ns` and handles `rs` of building `cs` in order: step `k` takes
/// `ns[k]` to `ns[k + 1]` and yields `rs[k]`.
pub open spec fn chain(ns: Seq<Seq<DagCalc>>, cs: Seq<DagCalc>, rs: Seq<DagNode>) -> bool {
    &&& ns.len() == cs.len() + 1
    &&& rs.len() == cs.len()
    &&& forall|k: int| 0 <= k < cs.len() ==> built(ns[k], #[trigger] cs[k], ns[k + 1], rs[k])
}

/// Building `cs` in order takes `before` to `after` and yields the handles `rs`.
pub open spec fn runs(before: Seq<DagCalc>, cs: Seq<DagCalc>, rs: Seq<DagNode>, after: Seq<DagCalc>) -> bool {
    exists|ns: Seq<Seq<DagCalc>>| #[trigger] chain(ns, cs, rs) && ns[0] == before && ns[cs.len() as int] == after
}

/// A constant that compares equal to zero.
pub open spec fn spec_is_zero(n: DagNode) -> bool {
    n matches DagNode::F64(b) && is_zero_bits(b)
}

/// A constant that compares equal to one.
pub open spec fn spec_is_one(n: DagNode) -> bool {
    n matches DagNode::F64(b) && is_one_bits(b)
}

/// One more than the index of a computation; zero for constants and inputs.
pub open spec fn rank(n: DagNode) -> nat {
    match n {
        DagNode::Node(i) => (i + 1) as nat,
        _ => 0,
    }
}

/// The operands of a computation, in order.
pub open spec fn operands(c: DagCalc) -> Seq<DagNode> {
    match c {
        DagCalc::F64Neg(x) => seq![x],
        DagCalc::F64Add(x, y) => seq![x, y],
        DagCalc::F64Sub(x, y) => seq![x, y],
        DagCalc::F64Mul(x, y) => seq![x, y],
        DagCalc::F64Div(x, y) => seq![x, y],
        DagCalc::F64Lt(x, y) => seq![x, y],
        DagCalc::F64Gt(x, y) => seq![x, y],
        DagCalc::F64Le(x, y) => seq![x, y],
        DagCalc::F64Ge(x, y) => seq![x, y],
    }
}

/// Every operand of `c` is a constant, an input, or a computation below index `bound`.
pub open spec fn calc_below(c: DagCalc, bound: nat) -> bool {
    forall|k: int| 0 <= k < operands(c).len() ==> rank(#[trigger] operands(c)[k]) <= bound
}

/// The handle `n` refers into a graph of `len` computations.
pub open spec fn node_in(n: DagNode, len: nat) -> bool {
    rank(n) <= len
}

/// The graph is acyclic, ordered topologically, and holds each computation once.
pub open spec fn dag_wf(nodes: Seq<DagCalc>) -> bool {
    &&& forall|i: int| 0 <= i < nodes.len() ==> calc_below(#[trigger] nodes[i], i as nat)
    &&& forall|i: int, j: int| 0 <= i < j < nodes.len() ==> nodes[i] != nodes[j]
}

/// Value numbering: the existing handle of `c`, or a new one for it at the end.
pub open spec fn intern(nodes: Seq<DagCalc>, c: DagCalc) -> (Seq<DagCalc>, DagNode) {
    if nodes.contains(c) {
        (nodes, DagNode::Node(nodes.index_of(c) as usize))
    } else {
        (nodes.push(c), DagNode::Node(nodes.len() as usize))
    }
}

/// Negation of a handle that is not constant folded by arithmetic.
pub open spec fn neg_result(nodes: Seq<DagCalc>, x: DagNode) -> (Seq<DagCalc>, DagNode) {
    match x {
        DagNode::F64(a) => (nodes, DagNode::F64(neg_bits(a))),
        _ => intern(nodes, DagCalc::F64Neg(x)),
    }
}

/// The result of building `c` when not all of its operands are constants: the
/// algebraic identities, else value numbering.
pub open spec fn build(nodes: Seq<DagCalc>, c: DagCalc) -> (Seq<DagCalc>, DagNode) {
    match c {
        DagCalc::F64Neg(x) => neg_result(nodes, x),
        DagCalc::F64Add(x, y) => if spec_is_zero(x) {
            (nodes, y)
        } else if spec_is_zero(y) {
            (nodes, x)
        } else {
            intern(nodes, c)
        },
        DagCalc::F64Sub(x, y) => if spec_is_zero(x) {
            neg_result(nodes, y)
        } else if spec_is_zero(y) {
            (nodes, x)
        } else {
            intern(nodes, c)
        },
        DagCalc::F64Mul(x, y) => if spec_is_zero(x) || spec_is_zero(y) {
            (nodes, DagNode::F64(ZERO_BITS))
        } else if spec_is_one(x) {
            (nodes, y)
        } else if spec_is_one(y) {
            (nodes, x)
        } else {
            intern(nodes, c)
        },
        DagCalc::F64Div(x, y) => if spec_is_zero(x) {
            (nodes, DagNode::F64(ZERO_BITS))
        } else if spec_is_one(y) {
            (nodes, x)
        } else {
            intern(nodes, c)
        },
        _ => intern(nodes, c),
    }
}


/// Building keeps the graph well formed, only ever appends to it, and yields a
/// handle into it.
pub proof fn lemma_build(nodes: Seq<DagCalc>, c: DagCalc)
    requires
        dag_wf(nodes),
        calc_below(c, nodes.len()),
    ensures
        dag_wf(build(nodes, c).0),
        nodes.is_prefix_of(build(nodes, c).0),
        node_in(build(nodes, c).1, build(nodes, c).0.len()),
{
    lemma_intern(nodes, c);
    match c {
        DagCalc::F64Neg(x) => {
            assert(operands(c)[0] == x);
        },
        DagCalc::F64Sub(x, y) => {
            assert(operands(c)[0] == x && operands(c)[1] == y);
            lemma_intern(nodes, DagCalc::F64Neg(y));
            assert(operands(DagCalc::F64Neg(y))[0] == y);
        },
        _ => {},
    }
    reveal_build_operands(c);
}

proof fn reveal_build_operands(c: DagCalc)
    ensures
        c matches DagCalc::F64Add(x, y) ==> operands(c)[0] == x && operands(c)[1] == y,
        c matches DagCalc::F64Mul(x, y) ==> operands(c)[0] == x && operands(c)[1] == y,
        c matches DagCalc::F64Div(x, y) ==> operands(c)[0] == x && operands(c)[1] == y,
{
}

pub proof fn lemma_intern(nodes: Seq<DagCalc>, c: DagCalc)
    requires
        dag_wf(nodes),
        calc_below(c, nodes.len()),
    ensures
        dag_wf(intern(nodes, c).0),
        nodes.is_prefix_of(intern(nodes, c).0),
        node_in(intern(nodes, c).1, intern(nodes, c).0.len()),
{
    if nodes.contains(c) {
        nodes.index_of_first_ensures(c);
    } else {
        let n2 = nodes.push(c);
        assert forall|i: int| 0 <= i < n2.len() implies calc_below(#[trigger] n2[i], i as nat) by {
            if i < nodes.len() {
                assert(n2[i] == nodes[i]);
            }
        }
        assert forall|i: int, j: int| 0 <= i < j < n2.len() implies n2[i] != n2[j] by {
            if j == nodes.len() {
                assert(nodes[i] != c);
            } else {
                assert(nodes[i] != nodes[j]);
            }
        }
        assert(nodes =~= n2.take(nodes.len() as int));
    }
}

proof fn lemma_count_frame(nodes: Seq<DagCalc>, c: Seq<u8>, m: DagNode)
    ensures
        count_uses(nodes, c, m).len() == c.len(),
        forall|j: int| rank(m) <= j < c.len() ==> #[trigger] count_uses(nodes, c, m)[j] == c[j],
    decreases rank(m),
{
    if let DagNode::Node(i) = m {
        if i < nodes.len() && i < c.len() && c[i as int] == 0 {
            let ops = operands(nodes[i as int]);
            let c1 = c.update(i as int, 1);
            if rank(ops[0]) <= i {
                lemma_count_frame(nodes, c1, ops[0]);
            }
            let c2 = if rank(ops[0]) <= i {
                count_uses(nodes, c1, ops[0])
            } else {
                c1
            };
            if ops.len() == 2 && rank(ops[1]) <= i {
                lemma_count_frame(nodes, c2, ops[1]);
            }
        }
    }
}

proof fn lemma_emit_frame(nodes: Seq<DagCalc>, counts: Seq<u8>, base: nat, s: Schedule, m: DagNode)
    ensures
        emit_node(nodes, counts, base, s, m).placed.len() == s.placed.len(),
        forall|j: int|
            rank(m) <= j < s.placed.len() ==> #[trigger] emit_node(nodes, counts, base, s, m).placed[j]
                == s.placed[j],
    decreases rank(m),
{
    if let DagNode::Node(i) = m {
        if i < nodes.len() && i < s.placed.len() && s.placed[i as int] is None {
            let ops = operands(nodes[i as int]);
            if rank(ops[0]) <= i {
                lemma_emit_frame(nodes, counts, base, s, ops[0]);
            }
            let s1 = if rank(ops[0]) <= i {
                emit_node(nodes, counts, base, s, ops[0])
            } else {
                s
            };
            if ops.len() == 2 && rank(ops[1]) <= i {
                lemma_emit_frame(nodes, counts, base, s1, ops[1]);
            }
        }
    }
}

/// The schedule after the operands of computation `i`, in order.
pub open spec fn emit_operands(nodes: Seq<DagCalc>, counts: Seq<u8>, base: nat, s: Schedule, i: usize) -> Schedule {
    let ops = operands(nodes[i as int]);
    let s1 = if rank(ops[0]) <= i {
        emit_node(nodes, counts, base, s, ops[0])
    } else {
        s
    };
    if ops.len() == 2 && rank(ops[1]) <= i {
        emit_node(nodes, counts, base, s1, ops[1])
    } else {
        s1
    }
}

/// Emitting one computation for two effects computes it once: the first effect
/// emits its operands, its opcode, and `local.tee` of a fresh local of its
/// result type (the next index after the parameters and the locals so far);
/// the second effect only reads that local with `local.get`. Where the
/// operands are constants or inputs, the fresh local is the only one added.
pub proof fn lemma_reemit_reuses_spill(nodes: Seq<DagCalc>, base: nat, s: Schedule, i: usize)
    requires
        i < nodes.len(),
        s.placed == Seq::new(nodes.len(), |j: int| None::<Local>),
    ensures
        ({
            let n = DagNode::Node(i);
            let effects = seq![Effect(EffectType::Push, n), Effect(EffectType::Push, n)];
            let counts = count_effects(nodes, Seq::new(nodes.len(), |j: int| 0u8), effects);
            let first = emit_node(nodes, counts, base, s, n);
            &&& first.placed[i as int] is Some
            &&& ({
                let s2 = emit_operands(nodes, counts, base, s, i);
                let l = Local((base + s2.locals.len()) as usize);
                &&& first.placed[i as int] == Some(l)
                &&& first.locals == s2.locals.push(calc_type(nodes[i as int]))
                &&& first.code == s2.code + seq![calc_opcode(nodes[i as int])] + seq![0x22u8] + uleb(l.0 as nat)
                &&& (forall|k: int|
                    0 <= k < operands(nodes[i as int]).len() ==> rank(#[trigger] operands(nodes[i as int])[k]) == 0)
                    ==> s2.locals == s.locals
            })
            &&& emit_effects(nodes, counts, base, s, effects) == Schedule {
                code: first.code + local_get_bytes(first.placed[i as int]->0),
                ..first
            }
        }),
{
    let n = DagNode::Node(i);
    let effects = seq![Effect(EffectType::Push, n), Effect(EffectType::Push, n)];
    let zeros = Seq::new(nodes.len(), |j: int| 0u8);
    let counts = count_effects(nodes, zeros, effects);
    // Counting: the first visit sets one, the second sets two.
    let one = effects.drop_last();
    assert(one.drop_last() =~= Seq::<Effect>::empty());
    assert(one =~= seq![Effect(EffectType::Push, n)]);
    assert(count_effects(nodes, zeros, one.drop_last()) == zeros);
    let once = count_uses(nodes, zeros, n);
    assert(count_effects(nodes, zeros, one) == once);
    let ops = operands(nodes[i as int]);
    let c1 = zeros.update(i as int, 1);
    lemma_count_frame(nodes, c1, ops[0]);
    let c2 = if rank(ops[0]) <= i {
        count_uses(nodes, c1, ops[0])
    } else {
        c1
    };
    if ops.len() == 2 {
        lemma_count_frame(nodes, c2, ops[1]);
    }
    assert(once[i as int] == 1);
    assert(counts == count_uses(nodes, once, n));
    assert(counts[i as int] == 2);
    // Scheduling: the first emission spills, the second reads the local.
    lemma_emit_frame(nodes, counts, base, s, ops[0]);
    let s1 = if rank(ops[0]) <= i {
        emit_node(nodes, counts, base, s, ops[0])
    } else {
        s
    };
    if ops.len() == 2 {
        lemma_emit_frame(nodes, counts, base, s1, ops[1]);
    }
    let first = emit_node(nodes, counts, base, s, n);
    assert(first.placed[i as int] is Some);
    if forall|k: int| 0 <= k < ops.len() ==> rank(#[trigger] ops[k]) == 0 {
        assert(rank(ops[0]) == 0);
        if ops.len() == 2 {
            assert(rank(ops[1]) == 0);
        }
    }
    let e1 = emit_effects(nodes, counts, base, s, one);
    assert(emit_effects(nodes, counts, base, s, one.drop_last()) == s);
    assert(e1.code =~= first.code);
    assert(e1 == first);
    let second = emit_node(nodes, counts, base, first, n);
    assert(second.code + effect_type_bytes(EffectType::Push) =~= second.code);
}

/// Value numbering: building a computation again on the same handles yields the
/// same handle and leaves the graph as it is.
pub proof fn lemma_value_numbering(nodes: Seq<DagCalc>, c: DagCalc)
    requires
        dag_wf(nodes),
        calc_below(c, nodes.len()),
    ensures
        build(build(nodes, c).0, c) == build(nodes, c),
{
    lemma_intern_again(nodes, c);
    match c {
        DagCalc::F64Neg(x) => {},
        DagCalc::F64Sub(x, y) => {
            lemma_intern_again(nodes, DagCalc::F64Neg(y));
        },
        _ => {},
    }
}

proof fn lemma_intern_again(nodes: Seq<DagCalc>, c: DagCalc)
    ensures
        intern(intern(nodes, c).0, c) == intern(nodes, c),
{
    if nodes.contains(c) {
    } else {
        let n2 = nodes.push(c);
        assert(n2[nodes.len() as int] == c);
        n2.index_of_first_ensures(c);
        assert(n2.contains(c));
        let k = n2.index_of(c);
        assert(k == nodes.len()) by {
            if k < nodes.len() {
                assert(nodes[k] == c);
                assert(nodes.contains(c));
            }
        }
    }
}

/// The algebraic identities on a handle `x` that is not a constant: `0 + x` is
/// `x`, `0 * x` is the constant zero, `1 * x` is `x`; and negating the constant
/// `-0.0` gives the constant `+0.0` (its sign bit flipped; the bit patterns differ).
pub proof fn lemma_identities(nodes: Seq<DagCalc>, x: DagNode)
    requires
        !(x is F64),
    ensures
        build(nodes, DagCalc::F64Add(DagNode::F64(ZERO_BITS), x)) == (nodes, x),
        build(nodes, DagCalc::F64Mul(DagNode::F64(ZERO_BITS), x)) == (nodes, DagNode::F64(ZERO_BITS)),
        build(nodes, DagCalc::F64Mul(DagNode::F64(ONE_BITS), x)) == (nodes, x),
        build(nodes, DagCalc::F64Neg(DagNode::F64(NEG_ZERO_BITS))) == (nodes, DagNode::F64(ZERO_BITS)),
{
}

impl DagNode {
    /// The handle is a constant equal to zero (`+0.0` or `-0.0`).
    pub fn is_const_zero(self) -> (r: bool)
        ensures
            r == spec_is_zero(self),
    {
        match self {
            DagNode::F64(x) => x == ZERO_BITS || x == NEG_ZERO_BITS,
            _ => false,
        }
    }

    /// The handle is a constant equal to one.
    pub fn is_const_one(self) -> (r: bool)
        ensures
            r == spec_is_one(self),
    {
        match self {
            DagNode::F64(x) => x == ONE_BITS,
            _ => false,
        }
    }
}

impl<A: Binary64> Dag<A> {
    /// The computations, in order of creation.
    pub closed spec fn spec_nodes(&self) -> Seq<DagCalc> {
        self.nodes@
    }

    /// Acyclic, in topological order, without duplicates.
    pub open spec fn wf(&self) -> bool {
        dag_wf(self.spec_nodes())
    }

    /// The handle `n` may be used with this graph.
    pub open spec fn holds(&self, n: DagNode) -> bool {
        node_in(n, self.spec_nodes().len())
    }

    /// An empty graph.
    pub fn new() -> (r: Dag<A>)
        ensures
            r.wf(),
            r.spec_nodes() == Seq::<DagCalc>::empty(),
    {
        Dag { nodes: Vec::new(), arith: PhantomData }
    }

    /// The number of computations.
    pub fn len(&self) -> (r: usize)
        ensures
            r == self.spec_nodes().len(),
    {
        self.nodes.len()
    }


    /// The constant `+0.0`.
    pub fn f64_zero(&self) -> (r: DagNode)
        ensures
            r == DagNode::F64(ZERO_BITS),
    {
        DagNode::F64(ZERO_BITS)
    }

    /// The constant `1.0`.
    pub fn f64_one(&self) -> (r: DagNode)
        ensures
            r == DagNode::F64(ONE_BITS),
    {
        DagNode::F64(ONE_BITS)
    }

    /// The constant whose bit pattern is `bits`.
    pub fn f64_const(&self, bits: u64) -> (r: DagNode)
        ensures
            r == DagNode::F64(bits),
    {
        DagNode::F64(bits)
    }

    /// The value of a local.
    pub fn f64_input(&self, local: Local) -> (r: DagNode)
        ensures
            r == DagNode::Input(local),
    {
        DagNode::Input(local)
    }

    /// `-x`: a constant is negated by flipping its sign bit.
    pub fn f64_neg(&mut self, x: DagNode) -> (r: DagNode)
        requires
            old(self).wf(),
            old(self).holds(x),
        ensures
            final(self).wf(),
            final(self).holds(r),
            old(self).spec_nodes().is_prefix_of(final(self).spec_nodes()),
            (final(self).spec_nodes(), r) == build(old(self).spec_nodes(), DagCalc::F64Neg(x)),
            built(old(self).spec_nodes(), DagCalc::F64Neg(x), final(self).spec_nodes(), r),
    {
        proof {
            lemma_build(self.spec_nodes(), DagCalc::F64Neg(x));
            assert(self.spec_nodes().is_prefix_of(self.spec_nodes()));
        }
        match x {
            DagNode::F64(a) => DagNode::F64(negate_bits(a)),
            _ => self.calc(DagCalc::F64Neg(x)),
        }
    }

    /// `x + y`: two constants fold; a zero operand yields the other operand.
    pub fn f64_add(&mut self, x: DagNode, y: DagNode) -> (r: DagNode)
        requires
            old(self).wf(),
            old(self).holds(x),
            old(self).holds(y),
        ensures
            final(self).wf(),
            final(self).holds(r),
            old(self).spec_nodes().is_prefix_of(final(self).spec_nodes()),
            (x is F64 && y is F64) ==> final(self).spec_nodes() == old(self).spec_nodes() && r is F64,
            !(x is F64 && y is F64) ==> (final(self).spec_nodes(), r) == build(
                old(self).spec_nodes(),
                DagCalc::F64Add(x, y),
            ),
            built(old(self).spec_nodes(), DagCalc::F64Add(x, y), final(self).spec_nodes(), r),
    {
        proof {
            lemma_build(self.spec_nodes(), DagCalc::F64Add(x, y));
            assert(self.spec_nodes().is_prefix_of(self.spec_nodes()));
        }
        match (x, y) {
            (DagNode::F64(a), DagNode::F64(b)) => DagNode::F64(A::add_bits(a, b)),
            _ => {
                if x.is_const_zero() {
                    y
                } else if y.is_const_zero() {
                    x
                } else {
                    self.calc(DagCalc::F64Add(x, y))
                }
            },
        }
    }

    /// `x - y`: two constants fold; `0 - y` is `-y`; `x - 0` is `x`.
    pub fn f64_sub(&mut self, x: DagNode, y: DagNode) -> (r: DagNode)
        requires
            old(self).wf(),
            old(self).holds(x),
            old(self).holds(y),
        ensures
            final(self).wf(),
            final(self).holds(r),
            old(self).spec_nodes().is_prefix_of(final(self).spec_nodes()),
            (x is F64 && y is F64) ==> final(self).spec_nodes() == old(self).spec_nodes() && r is F64,
            !(x is F64 && y is F64) ==> (final(self).spec_nodes(), r) == build(
                old(self).spec_nodes(),
                DagCalc::F64Sub(x, y),
            ),
            built(old(self).spec_nodes(), DagCalc::F64Sub(x, y), final(self).spec_nodes(), r),
    {
        proof {
            lemma_build(self.spec_nodes(), DagCalc::F64Sub(x, y));
            assert(self.spec_nodes().is_prefix_of(self.spec_nodes()));
        }
        match (x, y) {
            (DagNode::F64(a), DagNode::F64(b)) => DagNode::F64(A::sub_bits(a, b)),
            _ => {
                if x.is_const_zero() {
                    self.f64_neg(y)
                } else if y.is_const_zero() {
                    x
                } else {
                    self.calc(DagCalc::F64Sub(x, y))
                }
            },
        }
    }

    /// `x * y`: two constants fold; a zero operand yields zero; a one operand yields the other operand.
    pub fn f64_mul(&mut self, x: DagNode, y: DagNode) -> (r: DagNode)
        requires
            old(self).wf(),
            old(self).holds(x),
            old(self).holds(y),
        ensures
            final(self).wf(),
            final(self).holds(r),
            old(self).spec_nodes().is_prefix_of(final(self).spec_nodes()),
            (x is F64 && y is F64) ==> final(self).spec_nodes() == old(self).spec_nodes() && r is F64,
            !(x is F64 && y is F64) ==> (final(self).spec_nodes(), r) == build(
                old(self).spec_nodes(),
                DagCalc::F64Mul(x, y),
            ),
            built(old(self).spec_nodes(), DagCalc::F64Mul(x, y), final(self).spec_nodes(), r),
    {
        proof {
            lemma_build(self.spec_nodes(), DagCalc::F64Mul(x, y));
            assert(self.spec_nodes().is_prefix_of(self.spec_nodes()));
        }
        match (x, y) {
            (DagNode::F64(a), DagNode::F64(b)) => DagNode::F64(A::mul_bits(a, b)),
            _ => {
                if x.is_const_zero() || y.is_const_zero() {
                    DagNode::F64(ZERO_BITS)
                } else if x.is_const_one() {
                    y
                } else if y.is_const_one() {
                    x
                } else {
                    self.calc(DagCalc::F64Mul(x, y))
                }
            },
        }
    }

    /// `x / y`: two constants fold; `0 / y` is zero; `x / 1` is `x`.
    pub fn f64_div(&mut self, x: DagNode, y: DagNode) -> (r: DagNode)
        requires
            old(self).wf(),
            old(self).holds(x),
            old(self).holds(y),
        ensures
            final(self).wf(),
            final(self).holds(r),
            old(self).spec_nodes().is_prefix_of(final(self).spec_nodes()),
            (x is F64 && y is F64) ==> final(self).spec_nodes() == old(self).spec_nodes() && r is F64,
            !(x is F64 && y is F64) ==> (final(self).spec_nodes(), r) == build(
                old(self).spec_nodes(),
                DagCalc::F64Div(x, y),
            ),
            built(old(self).spec_nodes(), DagCalc::F64Div(x, y), final(self).spec_nodes(), r),
    {
        proof {
            lemma_build(self.spec_nodes(), DagCalc::F64Div(x, y));
            assert(self.spec_nodes().is_prefix_of(self.spec_nodes()));
        }
        match (x, y) {
            (DagNode::F64(a), DagNode::F64(b)) => DagNode::F64(A::div_bits(a, b)),
            _ => {
                if x.is_const_zero() {
                    DagNode::F64(ZERO_BITS)
                } else if y.is_const_one() {
                    x
                } else {
                    self.calc(DagCalc::F64Div(x, y))
                }
            },
        }
    }

    /// The comparison `x < y`, an `i32`; never folded.
    pub fn f64_lt(&mut self, x: DagNode, y: DagNode) -> (r: DagNode)
        requires
            old(self).wf(),
            old(self).holds(x),
            old(self).holds(y),
        ensures
            final(self).wf(),
            final(self).holds(r),
            old(self).spec_nodes().is_prefix_of(final(self).spec_nodes()),
            (final(self).spec_nodes(), r) == build(old(self).spec_nodes(), DagCalc::F64Lt(x, y)),
            built(old(self).spec_nodes(), DagCalc::F64Lt(x, y), final(self).spec_nodes(), r),
    {
        proof {
            lemma_build(self.spec_nodes(), DagCalc::F64Lt(x, y));
        }
        self.calc(DagCalc::F64Lt(x, y))
    }

    /// The comparison `x > y`, an `i32`; never folded.
    pub fn f64_gt(&mut self, x: DagNode, y: DagNode) -> (r: DagNode)
        requires
            old(self).wf(),
            old(self).holds(x),
            old(self).holds(y),
        ensures
            final(self).wf(),
            final(self).holds(r),
            old(self).spec_nodes().is_prefix_of(final(self).spec_nodes()),
            (final(self).spec_nodes(), r) == build(old(self).spec_nodes(), DagCalc::F64Gt(x, y)),
            built(old(self).spec_nodes(), DagCalc::F64Gt(x, y), final(self).spec_nodes(), r),
    {
        proof {
            lemma_build(self.spec_nodes(), DagCalc::F64Gt(x, y));
        }
        self.calc(DagCalc::F64Gt(x, y))
    }

    /// The comparison `x <= y`, an `i32`; never folded.
    pub fn f64_le(&mut self, x: DagNode, y: DagNode) -> (r: DagNode)
        requires
            old(self).wf(),
            old(self).holds(x),
            old(self).holds(y),
        ensures
            final(self).wf(),
            final(self).holds(r),
            old(self).spec_nodes().is_prefix_of(final(self).spec_nodes()),
            (final(self).spec_nodes(), r) == build(old(self).spec_nodes(), DagCalc::F64Le(x, y)),
            built(old(self).spec_nodes(), DagCalc::F64Le(x, y), final(self).spec_nodes(), r),
    {
        proof {
            lemma_build(self.spec_nodes(), DagCalc::F64Le(x, y));
        }
        self.calc(DagCalc::F64Le(x, y))
    }

    /// The comparison `x >= y`, an `i32`; never folded.
    pub fn f64_ge(&mut self, x: DagNode, y: DagNode) -> (r: DagNode)
        requires
            old(self).wf(),
            old(self).holds(x),
            old(self).holds(y),
        ensures
            final(self).wf(),
            final(self).holds(r),
            old(self).spec_nodes().is_prefix_of(final(self).spec_nodes()),
            (final(self).spec_nodes(), r) == build(old(self).spec_nodes(), DagCalc::F64Ge(x, y)),
            built(old(self).spec_nodes(), DagCalc::F64Ge(x, y), final(self).spec_nodes(), r),
    {
        proof {
            lemma_build(self.spec_nodes(), DagCalc::F64Ge(x, y));
        }
        self.calc(DagCalc::F64Ge(x, y))
    }


    fn add_usage(&self, counts: &mut Vec<u8>, node: DagNode)
        requires
            self.wf(),
            self.holds(node),
            old(counts)@.len() == self.spec_nodes().len(),
        ensures
            final(counts)@ == count_uses(self.spec_nodes(), old(counts)@, node),
            final(counts)@.len() == old(counts)@.len(),
        decreases rank(node),
    {
        match node {
            DagNode::Node(i) => {
                if counts[i] > 0 {
                    counts.set(i, 2);
                } else {
                    counts.set(i, 1);
                    let c = self.nodes[i];
                    proof {
                        assert(calc_below(self.nodes@[i as int], i as nat));
                        assert(rank(operands(c)[0]) <= i);
                    }
                    match c {
                        DagCalc::F64Neg(x) => {
                            self.add_usage(counts, x);
                        },
                        DagCalc::F64Add(x, y) | DagCalc::F64Sub(x, y) | DagCalc::F64Mul(x, y)
                        | DagCalc::F64Div(x, y) | DagCalc::F64Lt(x, y) | DagCalc::F64Gt(x, y)
                        | DagCalc::F64Le(x, y) | DagCalc::F64Ge(x, y) => {
                            assert(rank(operands(c)[1]) <= i);
                            self.add_usage(counts, x);
                            self.add_usage(counts, y);
                        },
                    }
                }
            },
            _ => {},
        }
    }

    fn usage(&self, effects: &[Effect]) -> (r: Vec<u8>)
        requires
            self.wf(),
            forall|k: int| 0 <= k < effects@.len() ==> self.holds(#[trigger] effects@[k].1),
        ensures
            r@ == count_effects(
                self.spec_nodes(),
                Seq::new(self.spec_nodes().len(), |i: int| 0u8),
                effects@,
            ),
            r@.len() == self.spec_nodes().len(),
    {
        let ghost zeros = Seq::new(self.spec_nodes().len(), |i: int| 0u8);
        let mut counts: Vec<u8> = Vec::new();
        let mut i: usize = 0;
        while i < self.nodes.len()
            invariant
                i <= self.nodes@.len(),
                counts@ =~= zeros.take(i as int),
                zeros.len() == self.nodes@.len(),
                zeros == Seq::new(self.spec_nodes().len(), |i: int| 0u8),
            decreases self.nodes@.len() - i,
        {
            counts.push(0);
            i = i + 1;
        }
        assert(counts@ =~= zeros);
        let mut k: usize = 0;
        while k < effects.len()
            invariant
                self.wf(),
                forall|k: int| 0 <= k < effects@.len() ==> self.holds(#[trigger] effects@[k].1),
                k <= effects@.len(),
                counts@.len() == self.spec_nodes().len(),
                counts@ == count_effects(self.spec_nodes(), zeros, effects@.take(k as int)),
            decreases effects@.len() - k,
        {
            self.add_usage(&mut counts, effects[k].1);
            proof {
                assert(effects@.take(k + 1 as int).drop_last() =~= effects@.take(k as int));
            }
            k = k + 1;
        }
        assert(effects@.take(k as int) =~= effects@);
        counts
    }


    fn emit_recursive(
        &self,
        mb: &mut ModuleBuilder,
        placement: &mut Vec<Option<Local>>,
        usage: &Vec<u8>,
        node: DagNode,
    )
        requires
            self.wf(),
            self.holds(node),
            old(mb).wf(),
            old(mb)@.in_func,
            old(placement)@.len() == self.spec_nodes().len(),
            usage@.len() == self.spec_nodes().len(),
            old(mb)@.param_count + old(mb)@.locals.len() + unplaced(old(placement)@) < usize::MAX,
        ensures
            final(mb).wf(),
            schedule_of(final(mb)@, final(placement)@) == emit_node(
                self.spec_nodes(),
                usage@,
                old(mb)@.param_count as nat,
                schedule_of(old(mb)@, old(placement)@),
                node,
            ),
            final(mb)@ == (ModuleModel {
                code: final(mb)@.code,
                locals: final(mb)@.locals,
                ..old(mb)@
            }),
            final(placement)@.len() == old(placement)@.len(),
            final(mb)@.locals.len() + unplaced(final(placement)@) == old(mb)@.locals.len()
                + unplaced(old(placement)@),
            forall|j: int|
                rank(node) <= j < final(placement)@.len() ==> #[trigger] final(placement)@[j]
                    == old(placement)@[j],
        decreases rank(node),
    {
        match node {
            DagNode::F64(b) => {
                mb.f64_const(b);
                assert(mb@.code =~= old(mb)@.code + seq![0x44u8] + le_bytes(b as nat, 8));
            },
            DagNode::Input(l) => {
                mb.local_get(l);
            },
            DagNode::Node(i) => {
                match placement[i] {
                    Some(l) => {
                        mb.local_get(l);
                    },
                    None => {
                        let c = self.nodes[i];
                        proof {
                            assert(calc_below(self.nodes@[i as int], i as nat));
                            assert(rank(operands(c)[0]) <= i);
                        }
                        match c {
                            DagCalc::F64Neg(x) => {
                                self.emit_recursive(mb, placement, usage, x);
                            },
                            DagCalc::F64Add(x, y) | DagCalc::F64Sub(x, y) | DagCalc::F64Mul(x, y)
                            | DagCalc::F64Div(x, y) | DagCalc::F64Lt(x, y) | DagCalc::F64Gt(x, y)
                            | DagCalc::F64Le(x, y) | DagCalc::F64Ge(x, y) => {
                                assert(rank(operands(c)[1]) <= i);
                                self.emit_recursive(mb, placement, usage, x);
                                self.emit_recursive(mb, placement, usage, y);
                            },
                        }
                        let ghost s2 = schedule_of(mb@, placement@);
                        emit_opcode(mb, c);
                        if usage[i] > 1 {
                            proof {
                                assert(placement@[i as int] is None);
                                assert(unplaced(placement@) >= 1) by {
                                    lemma_unplaced_update(placement@, i as int, Local(0));
                                }
                            }
                            let local = mb.add_local(calc_result_type(c));
                            mb.local_tee(local);
                            proof {
                                lemma_unplaced_update(placement@, i as int, local);
                            }
                            placement.set(i, Some(local));
                            assert(mb@.code =~= s2.code + seq![calc_opcode(c)] + seq![0x22u8] + uleb(local.0 as nat));
                        }
                    },
                }
            },
        }
    }

    /// Schedules the effects, in order, into the open function of `mb`: each
    /// computation is emitted once, and one used more than once is kept in a
    /// local of its own.
    pub fn emit(self, mb: &mut ModuleBuilder, effects: &[Effect])
        requires
            self.wf(),
            forall|k: int| 0 <= k < effects@.len() ==> self.holds(#[trigger] effects@[k].1),
            old(mb).wf(),
            old(mb)@.in_func,
            old(mb)@.param_count + old(mb)@.locals.len() + self.spec_nodes().len() < usize::MAX,
        ensures
            final(mb).wf(),
            ({
                let s = emit_effects(
                    self.spec_nodes(),
                    count_effects(
                        self.spec_nodes(),
                        Seq::new(self.spec_nodes().len(), |i: int| 0u8),
                        effects@,
                    ),
                    old(mb)@.param_count as nat,
                    Schedule {
                        code: old(mb)@.code,
                        locals: old(mb)@.locals,
                        placed: Seq::new(self.spec_nodes().len(), |i: int| None::<Local>),
                    },
                    effects@,
                );
                final(mb)@ == (ModuleModel { code: s.code, locals: s.locals, ..old(mb)@ })
            }),
            final(mb)@.locals.len() <= old(mb)@.locals.len() + self.spec_nodes().len(),
    {
        let usage = self.usage(effects);
        let ghost nones = Seq::new(self.spec_nodes().len(), |i: int| None::<Local>);
        let ghost start = Schedule { code: old(mb)@.code, locals: old(mb)@.locals, placed: nones };
        let mut placement: Vec<Option<Local>> = Vec::new();
        let mut i: usize = 0;
        while i < self.nodes.len()
            invariant
                i <= self.nodes@.len(),
                placement@ =~= nones.take(i as int),
                nones == Seq::new(self.spec_nodes().len(), |i: int| None::<Local>),
            decreases self.nodes@.len() - i,
        {
            placement.push(None);
            i = i + 1;
        }
        assert(placement@ =~= nones);
        proof {
            lemma_unplaced_bound(nones);
        }
        let mut k: usize = 0;
        while k < effects.len()
            invariant
                self.wf(),
                forall|k: int| 0 <= k < effects@.len() ==> self.holds(#[trigger] effects@[k].1),
                k <= effects@.len(),
                mb.wf(),
                mb@.in_func,
                placement@.len() == self.spec_nodes().len(),
                usage@.len() == self.spec_nodes().len(),
                mb@.param_count + mb@.locals.len() + unplaced(placement@) < usize::MAX,
                mb@.locals.len() + unplaced(placement@) <= old(mb)@.locals.len() + self.spec_nodes().len(),
                schedule_of(mb@, placement@) == emit_effects(
                    self.spec_nodes(),
                    usage@,
                    old(mb)@.param_count as nat,
                    start,
                    effects@.take(k as int),
                ),
                mb@ == (ModuleModel { code: mb@.code, locals: mb@.locals, ..old(mb)@ }),
            decreases effects@.len() - k,
        {
            let effect = effects[k];
            self.emit_recursive(mb, &mut placement, &usage, effect.1);
            effect.0.emit(mb);
            proof {
                assert(effects@.take(k + 1 as int).drop_last() =~= effects@.take(k as int));
            }
            k = k + 1;
        }
        assert(effects@.take(k as int) =~= effects@);
    }

    fn find(&self, c: DagCalc) -> (r: Option<usize>)
        requires
            self.wf(),
        ensures
            r matches Some(i) ==> self.spec_nodes().contains(c) && i == self.spec_nodes().index_of(c),
            r is None ==> !self.spec_nodes().contains(c),
    {
        let mut i: usize = 0;
        while i < self.nodes.len()
            invariant
                self.wf(),
                i <= self.nodes@.len(),
                forall|j: int| 0 <= j < i ==> self.nodes@[j] != c,
            decreases self.nodes@.len() - i,
        {
            if self.nodes[i] == c {
                proof {
                    assert(self.nodes@.contains(c));
                    self.nodes@.index_of_first_ensures(c);
                    let k = self.nodes@.index_of(c);
                    assert(k == i as int) by {
                        if k < i as int {
                            assert(self.nodes@[k] != c);
                        } else if k > i as int {
                            assert(self.nodes@[i as int] != self.nodes@[k]);
                        }
                    }
                }
                return Some(i);
            }
            i = i + 1;
        }
        None
    }

    fn calc(&mut self, c: DagCalc) -> (r: DagNode)
        requires
            old(self).wf(),
            calc_below(c, old(self).spec_nodes().len()),
        ensures
            final(self).wf(),
            (final(self).spec_nodes(), r) == intern(old(self).spec_nodes(), c),
    {
        match self.find(c) {
            Some(i) => {
                return DagNode::Node(i);
            },
            None => {},
        }
        let n = DagNode::Node(self.nodes.len());
        self.nodes.push(c);
        proof {
            assert forall|i: int| 0 <= i < self.nodes@.len() implies calc_below(
                #[trigger] self.nodes@[i],
                i as nat,
            ) by {
                if i < old(self).nodes@.len() {
                    assert(self.nodes@[i] == old(self).nodes@[i]);
                }
            }
            assert forall|i: int, j: int| 0 <= i < j < self.nodes@.len() implies self.nodes@[i]
                != self.nodes@[j] by {
                if j == old(self).nodes@.len() {
                    assert(old(self).nodes@[i] != c);
                } else {
                    assert(old(self).nodes@[i] != old(self).nodes@[j]);
                }
            }
        }
        n
    }
}

impl<A: Binary64> Default for Dag<A> {
    fn default() -> (r: Dag<A>)
        ensures
            r.wf(),
            r.spec_nodes() == Seq::<DagCalc>::empty(),
    {
        Dag::new()
    }
}

} // verus!
