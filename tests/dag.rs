use fractal_wasm::{Binary64, Dag, DagNode, Effect, EffectType, ModuleBuilder, ValType};

struct Host;

impl Binary64 for Host {
    fn add_bits(a: u64, b: u64) -> u64 {
        (f64::from_bits(a) + f64::from_bits(b)).to_bits()
    }
    fn sub_bits(a: u64, b: u64) -> u64 {
        (f64::from_bits(a) - f64::from_bits(b)).to_bits()
    }
    fn mul_bits(a: u64, b: u64) -> u64 {
        (f64::from_bits(a) * f64::from_bits(b)).to_bits()
    }
    fn div_bits(a: u64, b: u64) -> u64 {
        (f64::from_bits(a) / f64::from_bits(b)).to_bits()
    }
    fn decimal_bits(literal: &str) -> u64 {
        literal.parse::<f64>().map(f64::to_bits).unwrap_or(f64::NAN.to_bits())
    }
}

fn c(x: f64) -> DagNode {
    DagNode::F64(x.to_bits())
}

fn open_function(params: usize) -> ModuleBuilder {
    let mut mb = ModuleBuilder::new();
    let ps = vec![ValType::F64; params];
    mb.start_func(&ps, &[ValType::F64]);
    mb
}

#[test]
fn value_numbering_same_handles() {
    let mut mb = open_function(2);
    let a = DagNode::Input(mb.get_local_param(0));
    let b = DagNode::Input(mb.get_local_param(1));
    let mut dag: Dag<Host> = Dag::new();
    let n1 = dag.f64_add(a, b);
    let n2 = dag.f64_add(a, b);
    assert_eq!(n1, n2);
    assert_eq!(n1, DagNode::Node(0));
    assert_eq!(dag.len(), 1);
    let n3 = dag.f64_add(b, a);
    assert_eq!(n3, DagNode::Node(1));
    let _ = mb.add_local(ValType::F64);
}

#[test]
fn identities() {
    let mut mb = open_function(1);
    let x = DagNode::Input(mb.get_local_param(0));
    let mut dag: Dag<Host> = Dag::new();
    assert_eq!(dag.f64_add(c(0.0), x), x);
    assert_eq!(dag.f64_add(x, c(-0.0)), x);
    assert_eq!(dag.f64_mul(c(0.0), x), c(0.0));
    assert_eq!(dag.f64_mul(x, c(-0.0)), c(0.0));
    assert_eq!(dag.f64_mul(c(1.0), x), x);
    assert_eq!(dag.f64_mul(x, c(1.0)), x);
    assert_eq!(dag.f64_div(c(0.0), x), c(0.0));
    assert_eq!(dag.f64_div(x, c(1.0)), x);
    assert_eq!(dag.f64_sub(x, c(0.0)), x);
    assert_eq!(dag.len(), 0);
    // 0 - x is -x.
    let n = dag.f64_sub(c(0.0), x);
    assert_eq!(n, dag.f64_neg(x));
    assert_eq!(dag.len(), 1);
    mb.end_func();
}

#[test]
fn negating_negative_zero() {
    let mut dag: Dag<Host> = Dag::new();
    // The sign bit flips: -(-0.0) is +0.0, a different bit pattern.
    assert_eq!(dag.f64_neg(c(-0.0)), c(0.0));
    assert_ne!((-0.0f64).to_bits(), 0.0f64.to_bits());
    assert_eq!(dag.f64_neg(c(2.5)), c(-2.5));
}

#[test]
fn constants_fold() {
    let mut dag: Dag<Host> = Dag::new();
    assert_eq!(dag.f64_add(c(1.0), c(2.0)), c(3.0));
    assert_eq!(dag.f64_sub(c(1.0), c(2.0)), c(-1.0));
    assert_eq!(dag.f64_mul(c(1.5), c(2.0)), c(3.0));
    assert_eq!(dag.f64_div(c(1.0), c(4.0)), c(0.25));
    assert_eq!(dag.len(), 0);
}

#[test]
fn comparisons_never_fold() {
    let mut dag: Dag<Host> = Dag::new();
    assert_eq!(dag.f64_lt(c(1.0), c(2.0)), DagNode::Node(0));
    assert_eq!(dag.f64_gt(c(1.0), c(2.0)), DagNode::Node(1));
    assert_eq!(dag.f64_le(c(1.0), c(2.0)), DagNode::Node(2));
    assert_eq!(dag.f64_ge(c(1.0), c(2.0)), DagNode::Node(3));
    assert_eq!(dag.f64_lt(c(1.0), c(2.0)), DagNode::Node(0));
}

#[test]
fn const_zero_detection() {
    assert!(c(0.0).is_const_zero());
    assert!(c(-0.0).is_const_zero());
    assert!(!c(1.0).is_const_zero());
    assert!(c(1.0).is_const_one());
    assert!(!c(-1.0).is_const_one());
}

fn count(code: &[u8], b: u8) -> usize {
    code.iter().filter(|x| **x == b).count()
}

#[test]
fn cse_through_emit() {
    // z*z + z*z with z = (zx, zy) as inputs, lowered over complex numbers.
    let mut mb = open_function(2);
    let zx = DagNode::Input(mb.get_local_param(0));
    let zy = DagNode::Input(mb.get_local_param(1));
    let mut dag: Dag<Host> = Dag::new();
    let square = |dag: &mut Dag<Host>| {
        let xx = dag.f64_mul(zx, zx);
        let xy = dag.f64_mul(zx, zy);
        let yx = dag.f64_mul(zx, zy);
        let yy = dag.f64_mul(zy, zy);
        (dag.f64_sub(xx, yy), dag.f64_add(xy, yx))
    };
    let (ax, ay) = square(&mut dag);
    let (bx, by) = square(&mut dag);
    assert_eq!((ax, ay), (bx, by));
    let x = dag.f64_add(ax, bx);
    let y = dag.f64_add(ay, by);
    dag.emit(&mut mb, &[Effect(EffectType::Push, x), Effect(EffectType::Push, y)]);
    mb.end_func();
    let code = mb.into_vec();
    // zx*zx, zy*zy and zx*zy are each computed once.
    assert_eq!(count(&code, 0xa2), 3);
    // The shared ones are spilled with local.tee.
    assert!(count(&code, 0x22) >= 1);
}

#[test]
fn reemit_reuses_spill() {
    let mut mb = open_function(2);
    let a = DagNode::Input(mb.get_local_param(0));
    let b = DagNode::Input(mb.get_local_param(1));
    let mut dag: Dag<Host> = Dag::new();
    let s = dag.f64_add(a, b);
    dag.emit(&mut mb, &[Effect(EffectType::Push, s), Effect(EffectType::Push, s)]);
    mb.f64_add();
    mb.end_func();
    let bytes = mb.into_vec();
    // Body: one declared f64 local (index 2); get 0, get 1, add, tee 2, get 2, add, end.
    let body = [0x01, 0x01, 0x7c, 0x20, 0x00, 0x20, 0x01, 0xa0, 0x22, 0x02, 0x20, 0x02, 0xa0, 0x0b];
    let n = bytes.len();
    assert_eq!(&bytes[n - body.len()..], &body);
    assert_eq!(bytes[n - body.len() - 1] as usize, body.len());
}

#[test]
fn emit_branch_effect_and_negation() {
    let mut mb = open_function(1);
    let x = DagNode::Input(mb.get_local_param(0));
    let mut dag: Dag<Host> = Dag::new();
    let n = dag.f64_neg(x);
    let cmp = dag.f64_lt(n, c(2.0));
    mb.start_block(fractal_wasm::BlockType::Empty);
    dag.emit(&mut mb, &[Effect(EffectType::BrIf(0), cmp)]);
    mb.end_block();
    mb.f64_const(0.0f64.to_bits());
    mb.end_func();
    let bytes = mb.into_vec();
    let mut body = vec![0x00, 0x02, 0x40, 0x20, 0x00, 0x9a, 0x44];
    body.extend_from_slice(&2.0f64.to_le_bytes());
    body.extend_from_slice(&[0x63, 0x0d, 0x00, 0x0b, 0x44]);
    body.extend_from_slice(&0.0f64.to_le_bytes());
    body.push(0x0b);
    let n = bytes.len();
    assert_eq!(&bytes[n - body.len()..], &body[..]);
}
