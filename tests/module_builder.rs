use fractal_wasm::{BlockType, ModuleBuilder, ValType};

#[test]
fn minimal_module_bytes() {
    let mut mb = ModuleBuilder::new();
    let f = mb.start_func(&[], &[ValType::F64]);
    mb.f64_const(1.0f64.to_bits());
    mb.end_func();
    mb.export_func(f, "f");
    let bytes = mb.into_vec();
    let expected: Vec<u8> = vec![
        0x00, 0x61, 0x73, 0x6d, 0x01, 0x00, 0x00, 0x00, // header
        0x01, 0x05, 0x01, 0x60, 0x00, 0x01, 0x7c, // types
        0x03, 0x02, 0x01, 0x00, // functions
        0x07, 0x05, 0x01, 0x01, 0x66, 0x00, 0x00, // exports
        0x0a, 0x0d, 0x01, 0x0b, 0x00, 0x44, 0x00, 0x00, 0x00, 0x00, 0x00, 0x00, 0xf0, 0x3f, 0x0b,
    ];
    assert_eq!(bytes, expected);
}

#[test]
fn empty_module() {
    let bytes = ModuleBuilder::default().into_vec();
    assert_eq!(
        bytes,
        vec![
            0x00, 0x61, 0x73, 0x6d, 0x01, 0x00, 0x00, 0x00, 0x01, 0x01, 0x00, 0x03, 0x01, 0x00, 0x07,
            0x01, 0x00, 0x0a, 0x01, 0x00
        ]
    );
}

#[test]
fn types_are_deduplicated() {
    let mut mb = ModuleBuilder::new();
    let f0 = mb.start_func(&[ValType::F64], &[ValType::F64]);
    mb.end_func();
    let f1 = mb.start_func(&[ValType::I32], &[]);
    mb.end_func();
    let f2 = mb.start_func(&[ValType::F64], &[ValType::F64]);
    mb.end_func();
    assert_eq!((f0.0, f1.0, f2.0), (0, 1, 2));
    let bytes = mb.into_vec();
    // Two types; functions use types 0, 1, 0.
    assert_eq!(
        &bytes[8..20],
        &[0x01, 0x0a, 0x02, 0x60, 0x01, 0x7c, 0x01, 0x7c, 0x60, 0x01, 0x7f, 0x00]
    );
    assert_eq!(&bytes[20..26], &[0x03, 0x04, 0x03, 0x00, 0x01, 0x00]);
}

#[test]
fn locals_follow_params() {
    let mut mb = ModuleBuilder::new();
    mb.start_func(&[ValType::F64, ValType::F64], &[]);
    assert_eq!(mb.get_local_param(1).0, 1);
    assert_eq!(mb.add_local(ValType::I32).0, 2);
    assert_eq!(mb.add_local(ValType::F64).0, 3);
    mb.end_func();
    let bytes = mb.into_vec();
    let n = bytes.len();
    // Body: size 6, two runs of one local each, end.
    assert_eq!(&bytes[n - 7..], &[0x06, 0x02, 0x01, 0x7f, 0x01, 0x7c, 0x0b]);
}

/// The code of a function with no parameters, results or locals, in a module
/// that has no exports: the code section comes after 21 bytes and its body
/// starts five bytes in; the final `end` is left out.
fn code_of(emit: impl Fn(&mut ModuleBuilder)) -> Vec<u8> {
    let mut mb = ModuleBuilder::new();
    mb.start_func(&[], &[]);
    emit(&mut mb);
    mb.end_func();
    let bytes = mb.into_vec();
    assert_eq!(bytes[21], 0x0a);
    bytes[26..bytes.len() - 1].to_vec()
}

#[test]
fn i32_const_signed_leb() {
    assert_eq!(code_of(|mb| mb.i32_const(0)), vec![0x41, 0x00]);
    assert_eq!(code_of(|mb| mb.i32_const(10)), vec![0x41, 0x0a]);
    assert_eq!(code_of(|mb| mb.i32_const(63)), vec![0x41, 0x3f]);
    assert_eq!(code_of(|mb| mb.i32_const(64)), vec![0x41, 0xc0, 0x00]);
    assert_eq!(code_of(|mb| mb.i32_const(u32::MAX)), vec![0x41, 0x7f]);
    assert_eq!(code_of(|mb| mb.i32_const((-64i32) as u32)), vec![0x41, 0x40]);
    assert_eq!(code_of(|mb| mb.i32_const((-65i32) as u32)), vec![0x41, 0xbf, 0x7f]);
    assert_eq!(code_of(|mb| mb.i32_const((-123456i32) as u32)), vec![0x41, 0xc0, 0xbb, 0x78]);
    assert_eq!(
        code_of(|mb| mb.i32_const(0x8000_0000)),
        vec![0x41, 0x80, 0x80, 0x80, 0x80, 0x78]
    );
}

#[test]
fn unsigned_leb_immediates() {
    assert_eq!(code_of(|mb| mb.br(624485)), vec![0x0c, 0xe5, 0x8e, 0x26]);
    assert_eq!(code_of(|mb| mb.br_if(127)), vec![0x0d, 0x7f]);
    assert_eq!(code_of(|mb| mb.br_if(128)), vec![0x0d, 0x80, 0x01]);
}

#[test]
fn opcodes() {
    let code = code_of(|mb| {
        mb.start_block(BlockType::Empty);
        mb.start_loop(BlockType::Empty);
        mb.f64_neg();
        mb.f64_add();
        mb.f64_sub();
        mb.f64_mul();
        mb.f64_div();
        mb.f64_lt();
        mb.f64_gt();
        mb.f64_le();
        mb.f64_ge();
        mb.i32_add();
        mb.i32_lt_u();
        mb.end_loop();
        mb.end_block();
    });
    assert_eq!(
        code,
        vec![
            0x02, 0x40, 0x03, 0x40, 0x9a, 0xa0, 0xa1, 0xa2, 0xa3, 0x63, 0x64, 0x65, 0x66, 0x6a, 0x49,
            0x0b, 0x0b
        ]
    );
}

#[test]
fn local_and_call_immediates() {
    let mut mb = ModuleBuilder::new();
    let f = mb.start_func(&[ValType::F64], &[ValType::F64]);
    let p = mb.get_local_param(0);
    mb.local_get(p);
    mb.local_tee(p);
    mb.local_set(p);
    mb.call(f);
    mb.end_func();
    let bytes = mb.into_vec();
    let n = bytes.len();
    assert_eq!(&bytes[n - 10..], &[0x00, 0x20, 0x00, 0x22, 0x00, 0x21, 0x00, 0x10, 0x00, 0x0b]);
}
