//! A stateful emitter of WebAssembly modules: a type table, functions with their
//! locals and code, exports, and the final binary.

use crate::leb128::{push_sleb_u32, push_uleb, sleb, uleb, as_i32};
use vstd::prelude::*;
use vstd::string::StringSliceAdditionalSpecFns;

verus! {

/// A WebAssembly value type.
#[derive(Clone, Copy, Debug, PartialEq, Eq, Structural)]
pub enum ValType {
    I32,
    I64,
    F32,
    F64,
}

/// The result type of a structured control instruction.
#[derive(Clone, Copy, Debug, PartialEq, Eq, Structural)]
pub enum BlockType {
    Empty,
}

/// The index of a function in the module.
#[derive(Clone, Copy, Debug, PartialEq, Eq, Structural)]
pub struct Func(pub usize);

/// The index of a local of the current function: parameters first, then declared locals.
#[derive(Clone, Copy, Debug, PartialEq, Eq, Hash, Structural)]
pub struct Local(pub usize);

pub open spec fn valtype_byte(t: ValType) -> u8 {
    match t {
        ValType::I32 => 0x7f,
        ValType::I64 => 0x7e,
        ValType::F32 => 0x7d,
        ValType::F64 => 0x7c,
    }
}

impl ValType {
    pub fn as_byte(&self) -> (r: u8)
        ensures
            r == valtype_byte(*self),
    {
        match self {
            ValType::I32 => 0x7f,
            ValType::I64 => 0x7e,
            ValType::F32 => 0x7d,
            ValType::F64 => 0x7c,
        }
    }
}

/// The bytes of a sequence of value types.
pub open spec fn valtype_bytes(ts: Seq<ValType>) -> Seq<u8>
    decreases ts.len(),
{
    if ts.len() == 0 {
        seq![]
    } else {
        valtype_bytes(ts.drop_last()) + seq![valtype_byte(ts.last())]
    }
}

/// One entry of the type section: `0x60`, the parameters, then the results.
pub open spec fn functype_bytes(params: Seq<ValType>, results: Seq<ValType>) -> Seq<u8> {
    seq![0x60u8] + uleb(params.len()) + valtype_bytes(params) + uleb(results.len())
        + valtype_bytes(results)
}

pub open spec fn types_bytes(types: Seq<(Seq<ValType>, Seq<ValType>)>) -> Seq<u8>
    decreases types.len(),
{
    if types.len() == 0 {
        seq![]
    } else {
        types_bytes(types.drop_last()) + functype_bytes(types.last().0, types.last().1)
    }
}

pub open spec fn funcs_bytes(funcs: Seq<usize>) -> Seq<u8>
    decreases funcs.len(),
{
    if funcs.len() == 0 {
        seq![]
    } else {
        funcs_bytes(funcs.drop_last()) + uleb(funcs.last() as nat)
    }
}

/// One export: the name's length and bytes, the kind byte, the index.
pub open spec fn export_bytes(e: (Seq<u8>, u8, usize)) -> Seq<u8> {
    uleb(e.0.len()) + e.0 + seq![e.1] + uleb(e.2 as nat)
}

pub open spec fn exports_bytes(exports: Seq<(Seq<u8>, u8, usize)>) -> Seq<u8>
    decreases exports.len(),
{
    if exports.len() == 0 {
        seq![]
    } else {
        exports_bytes(exports.drop_last()) + export_bytes(exports.last())
    }
}

/// The concatenation of a sequence of byte strings.
pub open spec fn flatten(parts: Seq<Seq<u8>>) -> Seq<u8>
    decreases parts.len(),
{
    if parts.len() == 0 {
        seq![]
    } else {
        flatten(parts.drop_last()) + parts.last()
    }
}

/// The declaration bytes of the locals: one run of length one per local.
pub open spec fn locals_bytes(ts: Seq<ValType>) -> Seq<u8>
    decreases ts.len(),
{
    if ts.len() == 0 {
        seq![]
    } else {
        locals_bytes(ts.drop_last()) + seq![1u8, valtype_byte(ts.last())]
    }
}

/// A function body without its size prefix: the local declarations, then the code.
pub open spec fn body_payload(locals: Seq<ValType>, code: Seq<u8>) -> Seq<u8> {
    uleb(locals.len()) + locals_bytes(locals) + code
}

/// A function body as it stands in the code section, prefixed by its size.
pub open spec fn body_bytes(locals: Seq<ValType>, code: Seq<u8>) -> Seq<u8> {
    uleb(body_payload(locals, code).len()) + body_payload(locals, code)
}

/// A section: its id, the size of its payload, the payload.
pub open spec fn section(id: u8, payload: Seq<u8>) -> Seq<u8> {
    seq![id] + uleb(payload.len()) + payload
}

pub open spec fn wasm_header() -> Seq<u8> {
    seq![0x00u8, 0x61, 0x73, 0x6d, 0x01, 0x00, 0x00, 0x00]
}

/// The module's bytes: header, then the type, function, export and code sections.
pub open spec fn module_bytes(m: ModuleModel) -> Seq<u8> {
    wasm_header() + section(0x01, uleb(m.types.len()) + types_bytes(m.types)) + section(
        0x03,
        uleb(m.funcs.len()) + funcs_bytes(m.funcs),
    ) + section(0x07, uleb(m.exports.len()) + exports_bytes(m.exports)) + section(
        0x0a,
        uleb(m.funcs.len()) + flatten(m.bodies),
    )
}

/// What a `ModuleBuilder` holds.
pub struct ModuleModel {
    /// The type table, without duplicates.
    pub types: Seq<(Seq<ValType>, Seq<ValType>)>,
    /// The type index of each finished function.
    pub funcs: Seq<usize>,
    /// The encoded body of each finished function.
    pub bodies: Seq<Seq<u8>>,
    /// Name, kind byte and function index of each export.
    pub exports: Seq<(Seq<u8>, u8, usize)>,
    /// Whether a function is open.
    pub in_func: bool,
    /// The type index of the open function.
    pub func_type: usize,
    /// The number of parameters of the open function.
    pub param_count: usize,
    /// The declared locals of the open function.
    pub locals: Seq<ValType>,
    /// The code of the open function so far.
    pub code: Seq<u8>,
}

/// A WebAssembly module under construction.
pub struct ModuleBuilder {
    types: Vec<(Vec<ValType>, Vec<ValType>)>,
    funcs: Vec<usize>,
    code_blob: Vec<u8>,
    exports: Vec<(Vec<u8>, u8, usize)>,
    current_func_type: usize,
    current_func_param_count: usize,
    current_func_local_count: usize,
    current_func_locals: Vec<u8>,
    current_func_code: Vec<u8>,
    in_func: bool,
    bodies: Ghost<Seq<Seq<u8>>>,
    local_types: Ghost<Seq<ValType>>,
}

impl View for ModuleBuilder {
    type V = ModuleModel;

    closed spec fn view(&self) -> ModuleModel {
        ModuleModel {
            types: self.types@.map_values(|t: (Vec<ValType>, Vec<ValType>)| (t.0@, t.1@)),
            funcs: self.funcs@,
            bodies: self.bodies@,
            exports: self.exports@.map_values(|e: (Vec<u8>, u8, usize)| (e.0@, e.1, e.2)),
            in_func: self.in_func,
            func_type: self.current_func_type,
            param_count: self.current_func_param_count,
            locals: self.local_types@,
            code: self.current_func_code@,
        }
    }
}

/// No two entries of the type table are equal.
pub open spec fn no_duplicate_types(types: Seq<(Seq<ValType>, Seq<ValType>)>) -> bool {
    forall|i: int, j: int| 0 <= i < j < types.len() ==> types[i] != types[j]
}

impl ModuleBuilder {
    /// The builder's fields agree with its model.
    pub closed spec fn wf(&self) -> bool {
        &&& self.code_blob@ == flatten(self.bodies@)
        &&& self.bodies@.len() == self.funcs@.len()
        &&& self.current_func_locals@ == locals_bytes(self.local_types@)
        &&& self.current_func_local_count == self.local_types@.len()
        &&& no_duplicate_types(self@.types)
        &&& model_ok(self@)
        &&& forall|k: int| 0 <= k < self.exports@.len() ==> #[trigger] self.exports@[k].1 == 0
    }

    /// A well-formed builder has a consistent model.
    pub proof fn lemma_model_ok(&self)
        requires
            self.wf(),
        ensures
            model_ok(self@),
            forall|k: int| 0 <= k < self@.exports.len() ==> #[trigger] self@.exports[k].1 == 0,
    {
        assert forall|k: int| 0 <= k < self@.exports.len() implies #[trigger] self@.exports[k].1 == 0 by {
            assert(self.exports@[k].1 == 0);
        }
    }
}

/// Every finished function has a body and a type of the table; the open
/// function's type is in the table.
pub open spec fn model_ok(m: ModuleModel) -> bool {
    &&& m.bodies.len() == m.funcs.len()
    &&& forall|k: int| 0 <= k < m.bodies.len() ==> is_body(#[trigger] m.bodies[k])
    &&& forall|k: int| 0 <= k < m.funcs.len() ==> #[trigger] m.funcs[k] < m.types.len()
    &&& m.in_func ==> m.func_type < m.types.len()
    &&& m.param_count + m.locals.len() <= usize::MAX
}

/// The bytes are a function body: its size, its local declarations, its code.
pub open spec fn is_body(b: Seq<u8>) -> bool {
    exists|locals: Seq<ValType>, code: Seq<u8>| b == body_bytes(locals, code)
}

/// A module whose every export is a function export (kind 0) naming one of its functions.
pub open spec fn exports_ok(m: ModuleModel) -> bool {
    forall|k: int| 0 <= k < m.exports.len() ==> #[trigger] m.exports[k].2 < m.funcs.len() && m.exports[k].1 == 0
}

/// The bytes are a module laid out by `module_bytes` from a consistent model
/// whose exports name its functions.
pub open spec fn well_formed_module(bytes: Seq<u8>) -> bool {
    exists|m: ModuleModel| #[trigger] module_bytes(m) == bytes && model_ok(m) && exports_ok(m)
}

/// Reads an unsigned LEB128 number at the start of `b`: its value and its
/// length in bytes.
pub open spec fn read_uleb(b: Seq<u8>) -> Option<(nat, nat)>
    decreases b.len(),
{
    if b.len() == 0 {
        None
    } else if b[0] < 128 {
        Some((b[0] as nat, 1))
    } else {
        match read_uleb(b.drop_first()) {
            Some((v, n)) => Some(((b[0] - 128) as nat + 128 * v, n + 1)),
            None => None,
        }
    }
}

/// Reads `b` to its end as records of an id byte, a LEB128 size and a
/// payload of that size: the ids in order, or `None` where `b` is not such records.
pub open spec fn read_sections(b: Seq<u8>) -> Option<Seq<u8>>
    decreases b.len(),
{
    if b.len() == 0 {
        Some(seq![])
    } else {
        match read_uleb(b.drop_first()) {
            Some((size, n)) => if 1 + n + size <= b.len() {
                match read_sections(b.subrange((1 + n + size) as int, b.len() as int)) {
                    Some(ids) => Some(seq![b[0]] + ids),
                    None => None,
                }
            } else {
                None
            },
            None => None,
        }
    }
}

proof fn lemma_read_uleb(n: nat, rest: Seq<u8>)
    ensures
        read_uleb(uleb(n) + rest) == Some((n, uleb(n).len())),
    decreases n,
{
    let b = uleb(n) + rest;
    if n < 128 {
        assert(b[0] == n as u8);
    } else {
        lemma_read_uleb(n / 128, rest);
        assert(b.drop_first() =~= uleb(n / 128) + rest);
        assert(b[0] == (128 + n % 128) as u8);
        assert(n == 128 * (n / 128) + n % 128) by (nonlinear_arith);
    }
}

proof fn lemma_read_section(id: u8, payload: Seq<u8>, rest: Seq<u8>)
    ensures
        read_sections(section(id, payload) + rest) == (match read_sections(rest) {
            Some(ids) => Some(seq![id] + ids),
            None => None,
        }),
{
    let b = section(id, payload) + rest;
    lemma_read_uleb(payload.len(), payload + rest);
    assert(b.drop_first() =~= uleb(payload.len()) + (payload + rest));
    let k = 1 + uleb(payload.len()).len() + payload.len();
    assert(b.subrange(k as int, b.len() as int) =~= rest);
}

/// The sections of a module read back: after the eight bytes of the header,
/// the bytes are exactly records (id, LEB128 size, payload), with the ids
/// 1, 3, 7, 10, strictly ascending.
pub proof fn lemma_sections_read_back(m: ModuleModel)
    ensures
        module_bytes(m).take(8) == wasm_header(),
        read_sections(module_bytes(m).skip(8)) == Some(seq![0x01u8, 0x03, 0x07, 0x0a]),
{
    let p1 = uleb(m.types.len()) + types_bytes(m.types);
    let p3 = uleb(m.funcs.len()) + funcs_bytes(m.funcs);
    let p7 = uleb(m.exports.len()) + exports_bytes(m.exports);
    let p10 = uleb(m.funcs.len()) + flatten(m.bodies);
    let empty = Seq::<u8>::empty();
    assert(read_sections(empty) == Some(Seq::<u8>::empty()));
    lemma_read_section(0x0a, p10, empty);
    lemma_read_section(0x07, p7, section(0x0a, p10) + empty);
    lemma_read_section(0x03, p3, section(0x07, p7) + (section(0x0a, p10) + empty));
    lemma_read_section(0x01, p1, section(0x03, p3) + (section(0x07, p7) + (section(0x0a, p10) + empty)));
    assert(module_bytes(m).skip(8) =~= section(0x01, p1) + (section(0x03, p3) + (section(0x07, p7) + (section(0x0a, p10) + empty))));
    assert(module_bytes(m).take(8) =~= wasm_header());
    assert(seq![0x01u8] + (seq![0x03u8] + (seq![0x07u8] + (seq![0x0au8] + Seq::<u8>::empty()))) =~= seq![0x01u8, 0x03, 0x07, 0x0a]);
}

/// The layout of a well-formed module: it begins with the magic number and the
/// version; its sections are the type, function, export and code sections, in
/// ascending order of id; the code section holds one body per declared function;
/// every export names a declared function.
pub proof fn lemma_well_formed_layout(bytes: Seq<u8>)
    requires
        well_formed_module(bytes),
    ensures
        bytes.take(8) == seq![0x00u8, 0x61, 0x73, 0x6d, 0x01, 0x00, 0x00, 0x00],
        exists|m: ModuleModel|
            {
                &&& #[trigger] module_bytes(m) == bytes
                &&& bytes == wasm_header() + section(0x01, uleb(m.types.len()) + types_bytes(m.types))
                    + section(0x03, uleb(m.funcs.len()) + funcs_bytes(m.funcs)) + section(
                    0x07,
                    uleb(m.exports.len()) + exports_bytes(m.exports),
                ) + section(0x0a, uleb(m.funcs.len()) + flatten(m.bodies))
                &&& m.bodies.len() == m.funcs.len()
                &&& forall|k: int| 0 <= k < m.bodies.len() ==> is_body(#[trigger] m.bodies[k])
                &&& forall|k: int|
                    0 <= k < m.exports.len() ==> #[trigger] m.exports[k].2 < m.funcs.len() && m.exports[k].1 == 0
            },
{
    let m = choose|m: ModuleModel| #[trigger] module_bytes(m) == bytes && model_ok(m) && exports_ok(m);
    assert(bytes.take(8) =~= wasm_header());
}

/// The model after appending `bytes` to the open function's code.
pub open spec fn with_code(m: ModuleModel, bytes: Seq<u8>) -> ModuleModel {
    ModuleModel { code: m.code + bytes, ..m }
}

/// The eight little-endian bytes of `x`, least significant first.
pub open spec fn le_bytes(x: nat, k: nat) -> Seq<u8>
    decreases k,
{
    if k == 0 {
        seq![]
    } else {
        seq![(x % 256) as u8] + le_bytes(x / 256, (k - 1) as nat)
    }
}

/// Appends the bytes of `s` to `v`.
pub fn push_bytes(v: &mut Vec<u8>, s: &[u8])
    ensures
        final(v)@ == old(v)@ + s@,
{
    let mut i: usize = 0;
    while i < s.len()
        invariant
            i <= s@.len(),
            v@ == old(v)@ + s@.take(i as int),
        decreases s@.len() - i,
    {
        v.push(s[i]);
        i = i + 1;
        assert(s@.take(i as int) == s@.take(i - 1 as int).push(s@[i - 1]));
    }
    assert(s@.take(i as int) =~= s@);
}

fn push_le_u64(v: &mut Vec<u8>, x: u64)
    ensures
        final(v)@ == old(v)@ + le_bytes(x as nat, 8),
{
    let mut b: u64 = x;
    let mut k: usize = 8;
    while k > 0
        invariant
            k <= 8,
            v@ + le_bytes(b as nat, k as nat) == old(v)@ + le_bytes(x as nat, 8),
        decreases k,
    {
        let ghost before = v@;
        v.push((b % 256) as u8);
        assert(before + le_bytes(b as nat, k as nat) =~= v@ + le_bytes((b / 256) as nat, (k - 1) as nat));
        b = b / 256;
        k = k - 1;
    }
    assert(le_bytes(b as nat, 0) =~= seq![]);
    assert(v@ =~= v@ + le_bytes(b as nat, 0));
}

fn same_valtypes(a: &[ValType], b: &[ValType]) -> (r: bool)
    ensures
        r == (a@ == b@),
{
    if a.len() != b.len() {
        return false;
    }
    let mut i: usize = 0;
    while i < a.len()
        invariant
            a@.len() == b@.len(),
            i <= a@.len(),
            forall|j: int| 0 <= j < i ==> a@[j] == b@[j],
        decreases a@.len() - i,
    {
        if a[i] != b[i] {
            return false;
        }
        i = i + 1;
    }
    assert(a@ =~= b@);
    true
}

fn push_valtypes(v: &mut Vec<u8>, ts: &[ValType])
    ensures
        final(v)@ == old(v)@ + valtype_bytes(ts@),
{
    let mut i: usize = 0;
    while i < ts.len()
        invariant
            i <= ts@.len(),
            v@ == old(v)@ + valtype_bytes(ts@.take(i as int)),
        decreases ts@.len() - i,
    {
        v.push(ts[i].as_byte());
        proof {
            assert(ts@.take(i + 1 as int).drop_last() =~= ts@.take(i as int));
        }
        i = i + 1;
    }
    assert(ts@.take(i as int) =~= ts@);
}

fn section_into(result: &mut Vec<u8>, id: u8, payload: &Vec<u8>)
    ensures
        final(result)@ == old(result)@ + section(id, payload@),
{
    result.push(id);
    push_uleb(result, payload.len());
    push_bytes(result, payload.as_slice());
    assert(result@ =~= old(result)@ + section(id, payload@));
}

impl ModuleBuilder {
    /// The module's binary: the header, then the type, function, export and code sections.
    #[verifier::rlimit(60)]
    pub fn into_vec(self) -> (r: Vec<u8>)
        requires
            self.wf(),
            !self@.in_func,
        ensures
            r@ == module_bytes(self@),
    {
        let ghost m = self@;
        let mut type_section: Vec<u8> = Vec::new();
        push_uleb(&mut type_section, self.types.len());
        let mut i: usize = 0;
        while i < self.types.len()
            invariant
                m == self@,
                i <= m.types.len(),
                type_section@ == uleb(m.types.len()) + types_bytes(m.types.take(i as int)),
            decreases m.types.len() - i,
        {
            let t = &self.types[i];
            assert(m.types[i as int] == (t.0@, t.1@));
            type_section.push(0x60);
            push_uleb(&mut type_section, t.0.len());
            push_valtypes(&mut type_section, t.0.as_slice());
            push_uleb(&mut type_section, t.1.len());
            push_valtypes(&mut type_section, t.1.as_slice());
            proof {
                assert(m.types.take(i + 1 as int).drop_last() =~= m.types.take(i as int));
                assert(type_section@ =~= uleb(m.types.len()) + types_bytes(m.types.take(i + 1 as int)));
            }
            i = i + 1;
        }
        assert(m.types.take(i as int) =~= m.types);

        let mut func_section: Vec<u8> = Vec::new();
        push_uleb(&mut func_section, self.funcs.len());
        let mut i: usize = 0;
        while i < self.funcs.len()
            invariant
                m == self@,
                i <= m.funcs.len(),
                func_section@ == uleb(m.funcs.len()) + funcs_bytes(m.funcs.take(i as int)),
            decreases m.funcs.len() - i,
        {
            push_uleb(&mut func_section, self.funcs[i]);
            proof {
                assert(m.funcs.take(i + 1 as int).drop_last() =~= m.funcs.take(i as int));
                assert(func_section@ =~= uleb(m.funcs.len()) + funcs_bytes(m.funcs.take(i + 1 as int)));
            }
            i = i + 1;
        }
        assert(m.funcs.take(i as int) =~= m.funcs);

        let mut export_section: Vec<u8> = Vec::new();
        push_uleb(&mut export_section, self.exports.len());
        let mut i: usize = 0;
        while i < self.exports.len()
            invariant
                m == self@,
                i <= m.exports.len(),
                export_section@ == uleb(m.exports.len()) + exports_bytes(m.exports.take(i as int)),
            decreases m.exports.len() - i,
        {
            let e = &self.exports[i];
            assert(m.exports[i as int] == (e.0@, e.1, e.2));
            push_uleb(&mut export_section, e.0.len());
            push_bytes(&mut export_section, e.0.as_slice());
            export_section.push(e.1);
            push_uleb(&mut export_section, e.2);
            proof {
                assert(m.exports.take(i + 1 as int).drop_last() =~= m.exports.take(i as int));
                assert(export_section@ =~= uleb(m.exports.len()) + exports_bytes(
                    m.exports.take(i + 1 as int),
                ));
            }
            i = i + 1;
        }
        assert(m.exports.take(i as int) =~= m.exports);

        let mut code_section: Vec<u8> = Vec::new();
        push_uleb(&mut code_section, self.funcs.len());
        push_bytes(&mut code_section, self.code_blob.as_slice());

        let mut result: Vec<u8> = vec![0x00, 0x61, 0x73, 0x6d, 0x01, 0x00, 0x00, 0x00];
        assert(result@ =~= wasm_header());
        section_into(&mut result, 0x01, &type_section);
        section_into(&mut result, 0x03, &func_section);
        section_into(&mut result, 0x07, &export_section);
        section_into(&mut result, 0x0a, &code_section);
        assert(result@ =~= module_bytes(m));
        result
    }

    /// An empty module: no types, functions or exports, no open function.
    pub fn new() -> (r: ModuleBuilder)
        ensures
            r.wf(),
            r@.types == Seq::<(Seq<ValType>, Seq<ValType>)>::empty(),
            r@.funcs == Seq::<usize>::empty(),
            r@.bodies == Seq::<Seq<u8>>::empty(),
            r@.exports == Seq::<(Seq<u8>, u8, usize)>::empty(),
            !r@.in_func,
            r@.locals == Seq::<ValType>::empty(),
            r@.code == Seq::<u8>::empty(),
    {
        let r = ModuleBuilder {
            types: Vec::new(),
            funcs: Vec::new(),
            code_blob: Vec::new(),
            exports: Vec::new(),
            current_func_type: 0,
            current_func_param_count: 0,
            current_func_local_count: 0,
            current_func_locals: Vec::new(),
            current_func_code: Vec::new(),
            in_func: false,
            bodies: Ghost(Seq::empty()),
            local_types: Ghost(Seq::empty()),
        };
        proof {
            assert(r@.types =~= Seq::<(Seq<ValType>, Seq<ValType>)>::empty());
            assert(r@.exports =~= Seq::<(Seq<u8>, u8, usize)>::empty());
        }
        r
    }

    fn find_type(&self, params: &[ValType], results: &[ValType]) -> (r: Option<usize>)
        ensures
            r matches Some(i) ==> i < self@.types.len() && self@.types[i as int] == (params@, results@),
            r is None ==> !self@.types.contains((params@, results@)),
    {
        let mut i: usize = 0;
        while i < self.types.len()
            invariant
                i <= self.types@.len(),
                forall|j: int| 0 <= j < i ==> self@.types[j] != (params@, results@),
            decreases self.types@.len() - i,
        {
            let t = &self.types[i];
            assert(self@.types[i as int] == (t.0@, t.1@));
            if same_valtypes(t.0.as_slice(), params) && same_valtypes(t.1.as_slice(), results) {
                return Some(i);
            }
            i = i + 1;
        }
        None
    }

    /// The index of the type `(params, results)`, added to the table if it is not there yet.
    fn typ(&mut self, params: &[ValType], results: &[ValType]) -> (r: usize)
        requires
            old(self).wf(),
        ensures
            final(self).wf(),
            r < final(self)@.types.len(),
            final(self)@.types[r as int] == (params@, results@),
            final(self)@.types == (if old(self)@.types.contains((params@, results@)) {
                old(self)@.types
            } else {
                old(self)@.types.push((params@, results@))
            }),
            final(self)@ == (ModuleModel { types: final(self)@.types, ..old(self)@ }),
    {
        let ghost key = (params@, results@);
        match self.find_type(params, results) {
            Some(i) => {
                return i;
            },
            None => {},
        }
        let entry = (vstd::slice::slice_to_vec(params), vstd::slice::slice_to_vec(results));
        self.types.push(entry);
        proof {
            assert(self@.types =~= old(self)@.types.push(key));
        }
        self.types.len() - 1
    }

    fn emit(&mut self, byte: u8)
        requires
            old(self).wf(),
            old(self)@.in_func,
        ensures
            final(self).wf(),
            final(self)@ == with_code(old(self)@, seq![byte]),
    {
        self.current_func_code.push(byte);
        assert(self.current_func_code@ =~= old(self)@.code + seq![byte]);
    }

    fn emit_uleb(&mut self, n: usize)
        requires
            old(self).wf(),
            old(self)@.in_func,
        ensures
            final(self).wf(),
            final(self)@ == with_code(old(self)@, uleb(n as nat)),
    {
        push_uleb(&mut self.current_func_code, n);
    }

    fn emit_sleb_u32(&mut self, n: u32)
        requires
            old(self).wf(),
            old(self)@.in_func,
        ensures
            final(self).wf(),
            final(self)@ == with_code(old(self)@, sleb(as_i32(n))),
    {
        push_sleb_u32(&mut self.current_func_code, n);
    }

    fn emit_blocktype(&mut self, blocktype: BlockType)
        requires
            old(self).wf(),
            old(self)@.in_func,
        ensures
            final(self).wf(),
            final(self)@ == with_code(old(self)@, seq![0x40u8]),
    {
        match blocktype {
            BlockType::Empty => self.emit(0x40),
        }
    }

    /// Emits `i32.const`; the immediate is the two's complement reading of `x`.
    pub fn i32_const(&mut self, x: u32)
        requires
            old(self).wf(),
            old(self)@.in_func,
        ensures
            final(self).wf(),
            final(self)@ == with_code(old(self)@, seq![0x41u8] + sleb(as_i32(x))),
    {
        self.emit(0x41);
        self.emit_sleb_u32(x);
        assert(self@.code =~= old(self)@.code + (seq![0x41u8] + sleb(as_i32(x))));
    }

    /// Emits `f64.const` of the double whose bit pattern is `bits`.
    pub fn f64_const(&mut self, bits: u64)
        requires
            old(self).wf(),
            old(self)@.in_func,
        ensures
            final(self).wf(),
            final(self)@ == with_code(old(self)@, seq![0x44u8] + le_bytes(bits as nat, 8)),
    {
        self.emit(0x44);
        push_le_u64(&mut self.current_func_code, bits);
        assert(self@.code =~= old(self)@.code + (seq![0x44u8] + le_bytes(bits as nat, 8)));
    }

    /// Opens a function of type `(params) -> (results)` and returns its index.
    pub fn start_func(&mut self, params: &[ValType], results: &[ValType]) -> (r: Func)
        requires
            old(self).wf(),
            !old(self)@.in_func,
        ensures
            final(self).wf(),
            r.0 == old(self)@.funcs.len(),
            final(self)@.types == (if old(self)@.types.contains((params@, results@)) {
                old(self)@.types
            } else {
                old(self)@.types.push((params@, results@))
            }),
            final(self)@ == (ModuleModel {
                types: final(self)@.types,
                in_func: true,
                func_type: final(self)@.func_type,
                param_count: params@.len() as usize,
                locals: Seq::empty(),
                code: Seq::empty(),
                ..old(self)@
            }),
            final(self)@.types[final(self)@.func_type as int] == (params@, results@),
            final(self)@.func_type < final(self)@.types.len(),
    {
        self.current_func_type = self.typ(params, results);
        self.current_func_locals.clear();
        self.current_func_param_count = params.len();
        self.current_func_local_count = 0;
        self.current_func_code.clear();
        self.in_func = true;
        self.local_types = Ghost(Seq::empty());
        proof {
            assert(locals_bytes(Seq::<ValType>::empty()) =~= Seq::<u8>::empty());
        }
        Func(self.funcs.len())
    }

    /// Closes the open function: appends `end` and moves its body to the code section.
    pub fn end_func(&mut self)
        requires
            old(self).wf(),
            old(self)@.in_func,
        ensures
            final(self).wf(),
            final(self)@ == (ModuleModel {
                funcs: old(self)@.funcs.push(old(self)@.func_type),
                bodies: old(self)@.bodies.push(
                    body_bytes(old(self)@.locals, old(self)@.code + seq![0x0bu8]),
                ),
                in_func: false,
                locals: Seq::empty(),
                code: Seq::empty(),
                ..old(self)@
            }),
    {
        self.emit(0x0b);
        let mut payload: Vec<u8> = Vec::new();
        push_uleb(&mut payload, self.current_func_local_count);
        push_bytes(&mut payload, self.current_func_locals.as_slice());
        push_bytes(&mut payload, self.current_func_code.as_slice());
        let ghost body = body_bytes(old(self)@.locals, old(self)@.code + seq![0x0bu8]);
        assert(payload@ =~= body_payload(old(self)@.locals, old(self)@.code + seq![0x0bu8]));
        push_uleb(&mut self.code_blob, payload.len());
        push_bytes(&mut self.code_blob, payload.as_slice());
        self.funcs.push(self.current_func_type);
        self.current_func_code.clear();
        self.current_func_locals.clear();
        self.current_func_local_count = 0;
        self.in_func = false;
        self.bodies = Ghost(self.bodies@.push(body));
        self.local_types = Ghost(Seq::empty());
        proof {
            assert(is_body(body));
            assert(self.bodies@.drop_last() =~= old(self).bodies@);
            assert(self.code_blob@ =~= flatten(self.bodies@));
            assert(locals_bytes(Seq::<ValType>::empty()) =~= Seq::<u8>::empty());
        }
    }

    /// The number of locals of the open function, parameters included.
    pub fn local_total(&self) -> (r: usize)
        requires
            self.wf(),
        ensures
            r == self@.param_count + self@.locals.len(),
    {
        self.current_func_param_count + self.current_func_local_count
    }

    /// The local that holds parameter `index` of the open function.
    pub fn get_local_param(&self, index: usize) -> (r: Local)
        requires
            self@.in_func,
            index < self@.param_count,
        ensures
            r == Local(index),
    {
        Local(index)
    }

    /// Declares a new local of type `t` in the open function.
    pub fn add_local(&mut self, t: ValType) -> (r: Local)
        requires
            old(self).wf(),
            old(self)@.in_func,
            old(self)@.param_count + old(self)@.locals.len() < usize::MAX,
        ensures
            final(self).wf(),
            r == Local((old(self)@.param_count + old(self)@.locals.len()) as usize),
            final(self)@ == (ModuleModel { locals: old(self)@.locals.push(t), ..old(self)@ }),
    {
        push_uleb(&mut self.current_func_locals, 1);
        self.current_func_locals.push(t.as_byte());
        self.local_types = Ghost(self.local_types@.push(t));
        proof {
            assert(uleb(1) == seq![1u8]);
            assert(self.local_types@.drop_last() =~= old(self).local_types@);
            assert(self.current_func_locals@ =~= locals_bytes(self.local_types@));
        }
        self.current_func_local_count = self.current_func_local_count + 1;
        Local(self.current_func_param_count + self.current_func_local_count - 1)
    }

    /// Exports function `f` under `name`.
    pub fn export_func(&mut self, f: Func, name: &str)
        requires
            old(self).wf(),
        ensures
            final(self).wf(),
            final(self)@ == (ModuleModel {
                exports: old(self)@.exports.push((name.spec_bytes(), 0u8, f.0)),
                ..old(self)@
            }),
    {
        let bytes = vstd::slice::slice_to_vec(name.as_bytes());
        self.exports.push((bytes, 0x00, f.0));
        assert(self@.exports =~= old(self)@.exports.push((name.spec_bytes(), 0u8, f.0)));
    }

    /// Emits `i32.add`.
    pub fn i32_add(&mut self)
        requires
            old(self).wf(),
            old(self)@.in_func,
        ensures
            final(self).wf(),
            final(self)@ == with_code(old(self)@, seq![0x6au8]),
    {
        self.emit(0x6a);
    }

    /// Emits `i32.lt_u`.
    pub fn i32_lt_u(&mut self)
        requires
            old(self).wf(),
            old(self)@.in_func,
        ensures
            final(self).wf(),
            final(self)@ == with_code(old(self)@, seq![0x49u8]),
    {
        self.emit(0x49);
    }

    /// Emits `f64.neg`.
    pub fn f64_neg(&mut self)
        requires
            old(self).wf(),
            old(self)@.in_func,
        ensures
            final(self).wf(),
            final(self)@ == with_code(old(self)@, seq![0x9au8]),
    {
        self.emit(0x9a);
    }

    /// Emits `f64.add`.
    pub fn f64_add(&mut self)
        requires
            old(self).wf(),
            old(self)@.in_func,
        ensures
            final(self).wf(),
            final(self)@ == with_code(old(self)@, seq![0xa0u8]),
    {
        self.emit(0xa0);
    }

    /// Emits `f64.sub`.
    pub fn f64_sub(&mut self)
        requires
            old(self).wf(),
            old(self)@.in_func,
        ensures
            final(self).wf(),
            final(self)@ == with_code(old(self)@, seq![0xa1u8]),
    {
        self.emit(0xa1);
    }

    /// Emits `f64.mul`.
    pub fn f64_mul(&mut self)
        requires
            old(self).wf(),
            old(self)@.in_func,
        ensures
            final(self).wf(),
            final(self)@ == with_code(old(self)@, seq![0xa2u8]),
    {
        self.emit(0xa2);
    }

    /// Emits `f64.div`.
    pub fn f64_div(&mut self)
        requires
            old(self).wf(),
            old(self)@.in_func,
        ensures
            final(self).wf(),
            final(self)@ == with_code(old(self)@, seq![0xa3u8]),
    {
        self.emit(0xa3);
    }

    /// Emits `f64.lt`.
    pub fn f64_lt(&mut self)
        requires
            old(self).wf(),
            old(self)@.in_func,
        ensures
            final(self).wf(),
            final(self)@ == with_code(old(self)@, seq![0x63u8]),
    {
        self.emit(0x63);
    }

    /// Emits `f64.gt`.
    pub fn f64_gt(&mut self)
        requires
            old(self).wf(),
            old(self)@.in_func,
        ensures
            final(self).wf(),
            final(self)@ == with_code(old(self)@, seq![0x64u8]),
    {
        self.emit(0x64);
    }

    /// Emits `f64.le`.
    pub fn f64_le(&mut self)
        requires
            old(self).wf(),
            old(self)@.in_func,
        ensures
            final(self).wf(),
            final(self)@ == with_code(old(self)@, seq![0x65u8]),
    {
        self.emit(0x65);
    }

    /// Emits `f64.ge`.
    pub fn f64_ge(&mut self)
        requires
            old(self).wf(),
            old(self)@.in_func,
        ensures
            final(self).wf(),
            final(self)@ == with_code(old(self)@, seq![0x66u8]),
    {
        self.emit(0x66);
    }

    /// Emits `end` of a loop.
    pub fn end_loop(&mut self)
        requires
            old(self).wf(),
            old(self)@.in_func,
        ensures
            final(self).wf(),
            final(self)@ == with_code(old(self)@, seq![0xbu8]),
    {
        self.emit(0xb);
    }

    /// Emits `end` of a block.
    pub fn end_block(&mut self)
        requires
            old(self).wf(),
            old(self)@.in_func,
        ensures
            final(self).wf(),
            final(self)@ == with_code(old(self)@, seq![0xbu8]),
    {
        self.emit(0xb);
    }

    /// Emits `local.get`.
    pub fn local_get(&mut self, local: Local)
        requires
            old(self).wf(),
            old(self)@.in_func,
        ensures
            final(self).wf(),
            final(self)@ == with_code(old(self)@, seq![0x20u8] + uleb(local.0 as nat)),
    {
        self.emit(0x20);
        self.emit_uleb(local.0);
        assert(self@.code =~= old(self)@.code + (seq![0x20u8] + uleb(local.0 as nat)));
    }

    /// Emits `local.set`.
    pub fn local_set(&mut self, local: Local)
        requires
            old(self).wf(),
            old(self)@.in_func,
        ensures
            final(self).wf(),
            final(self)@ == with_code(old(self)@, seq![0x21u8] + uleb(local.0 as nat)),
    {
        self.emit(0x21);
        self.emit_uleb(local.0);
        assert(self@.code =~= old(self)@.code + (seq![0x21u8] + uleb(local.0 as nat)));
    }

    /// Emits `local.tee`.
    pub fn local_tee(&mut self, local: Local)
        requires
            old(self).wf(),
            old(self)@.in_func,
        ensures
            final(self).wf(),
            final(self)@ == with_code(old(self)@, seq![0x22u8] + uleb(local.0 as nat)),
    {
        self.emit(0x22);
        self.emit_uleb(local.0);
        assert(self@.code =~= old(self)@.code + (seq![0x22u8] + uleb(local.0 as nat)));
    }

    /// Emits `br` to a label.
    pub fn br(&mut self, label: usize)
        requires
            old(self).wf(),
            old(self)@.in_func,
        ensures
            final(self).wf(),
            final(self)@ == with_code(old(self)@, seq![0xcu8] + uleb(label as nat)),
    {
        self.emit(0xc);
        self.emit_uleb(label);
        assert(self@.code =~= old(self)@.code + (seq![0xcu8] + uleb(label as nat)));
    }

    /// Emits `br_if` to a label.
    pub fn br_if(&mut self, label: usize)
        requires
            old(self).wf(),
            old(self)@.in_func,
        ensures
            final(self).wf(),
            final(self)@ == with_code(old(self)@, seq![0xdu8] + uleb(label as nat)),
    {
        self.emit(0xd);
        self.emit_uleb(label);
        assert(self@.code =~= old(self)@.code + (seq![0xdu8] + uleb(label as nat)));
    }

    /// Emits `call` of a function.
    pub fn call(&mut self, f: Func)
        requires
            old(self).wf(),
            old(self)@.in_func,
        ensures
            final(self).wf(),
            final(self)@ == with_code(old(self)@, seq![0x10u8] + uleb(f.0 as nat)),
    {
        self.emit(0x10);
        self.emit_uleb(f.0);
        assert(self@.code =~= old(self)@.code + (seq![0x10u8] + uleb(f.0 as nat)));
    }

    /// Opens a loop.
    pub fn start_loop(&mut self, blocktype: BlockType)
        requires
            old(self).wf(),
            old(self)@.in_func,
        ensures
            final(self).wf(),
            final(self)@ == with_code(old(self)@, seq![0x3u8, 0x40u8]),
    {
        self.emit(0x3);
        self.emit_blocktype(blocktype);
        assert(self@.code =~= old(self)@.code + seq![0x3u8, 0x40u8]);
    }

    /// Opens a block.
    pub fn start_block(&mut self, blocktype: BlockType)
        requires
            old(self).wf(),
            old(self)@.in_func,
        ensures
            final(self).wf(),
            final(self)@ == with_code(old(self)@, seq![0x2u8, 0x40u8]),
    {
        self.emit(0x2);
        self.emit_blocktype(blocktype);
        assert(self@.code =~= old(self)@.code + seq![0x2u8, 0x40u8]);
    }
}

impl Default for ModuleBuilder {
    fn default() -> (r: ModuleBuilder)
        ensures
            r.wf(),
            r@.types.len() == 0,
            r@.funcs.len() == 0,
            r@.exports.len() == 0,
            !r@.in_func,
    {
        ModuleBuilder::new()
    }
}

} // verus!
