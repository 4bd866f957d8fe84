use fractal_wasm::{backend, backend_single, compile, Binary64, CompileError, CompileFailure, Expr};
use wasmi::{Engine, Linker, Module, Store};

struct Host;

impl Binary64 for Host {
    fn add_bits(a: u64, b: u64) -> u64 {
        (f64::from_bits(a) + f64::from_bits(b)).to_bits()
    }
    fn sub_bits(a: u64, b: u64) -> u64 {
        (f64::from_bits(a) - f64::from_bits(b)).to_bits()
    }
    fn mul_bits(a: u64, b: u64) -> u64 {
        (f64::from_bits(a) * f64::from_bits(b)).to_bits()
    }
    fn div_bits(a: u64, b: u64) -> u64 {
        (f64::from_bits(a) / f64::from_bits(b)).to_bits()
    }
    fn decimal_bits(literal: &str) -> u64 {
        literal.parse::<f64>().map(f64::to_bits).unwrap_or(f64::NAN.to_bits())
    }
}

fn texts(ts: &[&str]) -> Vec<String> {
    ts.iter().map(|t| t.to_string()).collect()
}

fn run_simple(bytes: &[u8]) -> f64 {
    let engine = Engine::default();
    let module = Module::new(&engine, bytes).expect("valid module");
    let mut store = Store::new(&engine, ());
    let linker = Linker::<()>::new(&engine);
    let instance = linker.instantiate_and_start(&mut store, &module).expect("instance");
    let f = instance
        .get_typed_func::<(), f64>(&store, "return_thing")
        .expect("entry point");
    f.call(&mut store, ()).expect("call")
}

fn run_fractal(bytes: &[u8], args: (f64, f64, f64, f64)) -> f64 {
    let engine = Engine::default();
    let module = Module::new(&engine, bytes).expect("valid module");
    let mut store = Store::new(&engine, ());
    let linker = Linker::<()>::new(&engine);
    let instance = linker.instantiate_and_start(&mut store, &module).expect("instance");
    let f = instance
        .get_typed_func::<(f64, f64, f64, f64), f64>(&store, "return_thing")
        .expect("entry point");
    f.call(&mut store, args).expect("call")
}

/// The escape-time loop of the single-expression shape, on the host.
fn reference_simple(step: impl Fn(f64, f64) -> (f64, f64)) -> f64 {
    let (mut x, mut y, mut iter) = (0.75f64, 0.75f64, 0.0f64);
    loop {
        if iter > 100.0 || x * x + y * y > 4.0 {
            return iter;
        }
        let (nx, ny) = step(x, y);
        x = nx;
        y = ny;
        iter += 1.0;
    }
}

#[test]
fn simple_arithmetic_constant_step() {
    // The step sets z to 7, which escapes after one round.
    let bytes = compile::<Host>(&texts(&["1 + 2 * 3"])).unwrap();
    assert_eq!(run_simple(&bytes), 1.0);
    assert_eq!(run_simple(&bytes), reference_simple(|_, _| (7.0, 0.0)));
}

#[test]
fn simple_parenthesised_step() {
    let bytes = compile::<Host>(&texts(&["(1 + 2) * 3"])).unwrap();
    assert_eq!(run_simple(&bytes), reference_simple(|_, _| (9.0, 0.0)));
}

#[test]
fn simple_sqabs_step() {
    let bytes = compile::<Host>(&texts(&["sqabs(1 + 2)"])).unwrap();
    assert_eq!(run_simple(&bytes), reference_simple(|_, _| (9.0, 0.0)));
}

#[test]
fn simple_fractal_bounded() {
    let bytes = compile::<Host>(&texts(&["z*z + 0.3"])).unwrap();
    let r = run_simple(&bytes);
    assert!(r.is_finite() && r >= 0.0 && r <= 101.0);
    assert_eq!(r, reference_simple(|x, y| (x * x - y * y + 0.3, x * y + y * x)));
}

#[test]
fn simple_stays_bounded_until_limit() {
    let bytes = compile::<Host>(&texts(&["z * 0.5"])).unwrap();
    assert_eq!(run_simple(&bytes), 101.0);
}

#[test]
fn full_fractal_newton_seed() {
    let bytes = compile::<Host>(&texts(&["", "z*z + c", "sqabs(z) > 4", "100"])).unwrap();
    assert_eq!(run_fractal(&bytes, (0.0, 0.0, 0.0, 0.0)), 101.0);
}

#[test]
fn full_fractal_initz_escape() {
    let bytes = compile::<Host>(&texts(&["0", "z*z + c", "sqabs(z) > 4", "100"])).unwrap();
    // z: 0, 1, 2, 5; |5|² > 4 after three rounds.
    assert_eq!(run_fractal(&bytes, (9.0, 9.0, 1.0, 0.0)), 3.0);
}

#[test]
fn full_fractal_matches_reference() {
    let bytes = compile::<Host>(&texts(&["c", "z*z + c", "sqabs(z) > 4", "50"])).unwrap();
    for k in 0..10 {
        let cx = -1.5 + 0.2 * k as f64;
        let cy = 0.1 * k as f64 - 0.4;
        let (mut x, mut y, mut iter) = (cx, cy, 0.0f64);
        loop {
            if iter > 50.0 || x * x + y * y > 4.0 {
                break;
            }
            let nx = x * x - y * y + cx;
            let ny = x * y + x * y + cy;
            x = nx;
            y = ny;
            iter += 1.0;
        }
        assert_eq!(run_fractal(&bytes, (0.0, 0.0, cx, cy)), iter);
    }
}

#[test]
fn module_header_and_sections() {
    let bytes = compile::<Host>(&texts(&["", "z*z + c", "sqabs(z) > 4", "100"])).unwrap();
    assert_eq!(&bytes[..8], &[0x00, 0x61, 0x73, 0x6d, 0x01, 0x00, 0x00, 0x00]);
    // Section ids in ascending order.
    let mut pos = 8;
    let mut ids = vec![];
    while pos < bytes.len() {
        ids.push(bytes[pos]);
        pos += 1;
        let mut size = 0usize;
        let mut shift = 0;
        loop {
            let b = bytes[pos];
            pos += 1;
            size |= ((b & 0x7f) as usize) << shift;
            shift += 7;
            if b & 0x80 == 0 {
                break;
            }
        }
        pos += size;
    }
    assert_eq!(pos, bytes.len());
    assert_eq!(ids, vec![0x01, 0x03, 0x07, 0x0a]);
}

#[test]
fn newton_rejects_division() {
    let r = compile::<Host>(&texts(&["", "z / c", "sqabs(z) > 4", "100"]));
    assert!(matches!(r, Err(CompileFailure::Compile(CompileError::NotDifferentiable))));
    // With an initial value no solver is built, and division is fine.
    assert!(compile::<Host>(&texts(&["0", "z / c", "sqabs(z) > 4", "100"])).is_ok());
}

#[test]
fn unknown_variable_rejected() {
    let r = compile::<Host>(&texts(&["q + 1"]));
    assert!(matches!(r, Err(CompileFailure::Compile(CompileError::UnknownVariable))));
}

#[test]
fn comparison_needs_real_operands() {
    let r = compile::<Host>(&texts(&["0", "z", "z > 4", "100"]));
    assert!(matches!(r, Err(CompileFailure::Compile(CompileError::NotReal))));
}

#[test]
fn escape_must_be_comparison() {
    let r = compile::<Host>(&texts(&["0", "z", "sqabs(z)", "100"]));
    assert!(matches!(r, Err(CompileFailure::Compile(CompileError::NotBool))));
}

#[test]
fn step_must_be_complex() {
    let r = compile::<Host>(&texts(&["z < 1"]));
    assert!(matches!(r, Err(CompileFailure::Compile(CompileError::NotReal))));
    let r = compile::<Host>(&texts(&["real(z) < 1"]));
    assert!(matches!(r, Err(CompileFailure::Compile(CompileError::NotComplex))));
}

#[test]
fn wrong_text_count() {
    assert!(matches!(compile::<Host>(&texts(&["1", "2"])), Err(CompileFailure::TextCount)));
    assert!(matches!(compile::<Host>(&texts(&[])), Err(CompileFailure::TextCount)));
}

#[test]
fn parse_error_surfaces() {
    let r = compile::<Host>(&texts(&["1 +"]));
    assert!(matches!(r, Err(CompileFailure::Parse(_))));
    let r = compile::<Host>(&texts(&["", "z*z", "sqabs(z) > 4", "(1"]));
    assert!(matches!(r, Err(CompileFailure::Parse(_))));
}

#[test]
fn conj_and_neg_lower() {
    // conj(z) * z = |z|², real; neg flips both parts.
    let bytes = compile::<Host>(&texts(&["neg(conj(z) * z)"])).unwrap();
    assert_eq!(run_simple(&bytes), reference_simple(|x, y| (-(x * x + y * y), -(x * y - y * x))));
}

#[test]
fn newton_seed_uses_derivative() {
    // Newton on z*z - 4 from 3 reaches the root 2; from there the step gives
    // 0, then -4, which escapes after two rounds.
    let bytes = compile::<Host>(&texts(&["", "z*z - 4", "sqabs(z) > 4", "100"])).unwrap();
    assert_eq!(run_fractal(&bytes, (3.0, 0.0, 0.0, 0.0)), 2.0);
    // From -3 it reaches -2, with the same count.
    assert_eq!(run_fractal(&bytes, (-3.0, 0.0, 0.0, 0.0)), 2.0);
}

#[test]
fn newton_seed_finds_root() {
    // Newton finds a root r of f = z*z*z - 1 + z, the step itself; then z runs
    // through f(r) = 0, f(0) = -1 and f(-1) = -3, which escapes after three rounds.
    let bytes = compile::<Host>(&texts(&["", "z*z*z - 1 + z", "sqabs(z) > 4", "20"])).unwrap();
    assert_eq!(run_fractal(&bytes, (0.9, 0.1, 0.0, 0.0)), 3.0);
}

fn num(t: &str) -> Expr {
    Expr::Number(t.to_string())
}

fn var(n: &str) -> Expr {
    Expr::Var(n.to_string())
}

fn call(op: &str, args: Vec<Expr>) -> Expr {
    Expr::Call(op.to_string(), args)
}

#[test]
fn unknown_operator_rejected() {
    let e = call("sin", vec![var("z")]);
    assert!(matches!(backend_single::<Host>(&e), Err(CompileError::UnknownOperator)));
}

#[test]
fn arity_checked() {
    let e = call("+", vec![var("z")]);
    assert!(matches!(backend_single::<Host>(&e), Err(CompileError::Arity)));
    let e = call("neg", vec![var("z"), var("z")]);
    assert!(matches!(backend_single::<Host>(&e), Err(CompileError::Arity)));
}

#[test]
fn backend_on_built_trees() {
    let step = call("+", vec![call("*", vec![var("z"), var("z")]), var("c")]);
    let escape = call(">", vec![call("sqabs", vec![var("z")]), num("4")]);
    let bytes = backend::<Host>(Some(&num("0")), &step, &escape, &num("100")).unwrap();
    assert_eq!(run_fractal(&bytes, (0.0, 0.0, 1.0, 0.0)), 3.0);
    let bytes = backend::<Host>(None, &step, &escape, &num("100")).unwrap();
    assert_eq!(run_fractal(&bytes, (0.0, 0.0, 0.0, 0.0)), 101.0);
}
