//! The entry point: source texts to a WebAssembly module.

use crate::ast::SpecExpr;
use crate::backend::{
    CompileError, backend, backend_single, complex_expr, expr_size, fractal_fn_types, fractal_lowers,
    deriv_expr, fractal_module, known_expr, loop_scope, max_source_size, single_scope, solver_scope,
};
use crate::binary64::Binary64;
use crate::grammar::spec_parse;
use crate::module_builder::{ValType, well_formed_module};
use crate::parse::{ParseErr, parse};
use vstd::prelude::*;

verus! {

/// Why a compilation failed.
#[derive(Debug)]
pub enum CompileFailure {
    /// A text is not an expression of the language.
    Parse(ParseErr),
    /// The expressions cannot be lowered.
    Compile(CompileError),
    /// Neither one text nor four.
    TextCount,
}

/// The text at `k` is compiled: the only one of a single text; of four, all
/// but an empty first one.
pub open spec fn is_used(texts: Seq<String>, k: int) -> bool {
    if texts.len() == 1 {
        k == 0
    } else {
        texts.len() == 4 && (if texts[0]@.len() == 0 {
            1 <= k < 4
        } else {
            0 <= k < 4
        })
    }
}

/// The tree of a text that parses.
pub open spec fn tree(t: String) -> SpecExpr {
    spec_parse(t@)->Some_0
}

/// Every text that is compiled parses, and the trees lower: one complex
/// expression, or the four parts of the fractal shape.
pub open spec fn texts_lower(texts: Seq<String>) -> bool {
    &&& texts.len() == 1 || texts.len() == 4
    &&& forall|k: int| 0 <= k < texts.len() && is_used(texts, k) ==> #[trigger] spec_parse(texts[k]@) is Some
    &&& texts.len() == 1 ==> complex_expr(tree(texts[0]), single_scope())
    &&& texts.len() == 4 ==> fractal_lowers(
        if texts[0]@.len() == 0 {
            None
        } else {
            Some(tree(texts[0]))
        },
        tree(texts[1]),
        tree(texts[2]),
        tree(texts[3]),
    )
}

/// The total size of the trees of the texts that are compiled.
pub open spec fn texts_size(texts: Seq<String>) -> nat {
    if texts.len() == 1 {
        expr_size(tree(texts[0]))
    } else {
        (if texts[0]@.len() == 0 {
            0
        } else {
            expr_size(tree(texts[0]))
        }) + expr_size(tree(texts[1])) + expr_size(tree(texts[2])) + expr_size(tree(texts[3]))
    }
}

fn parse_text(text: &String) -> (r: Result<crate::ast::Expr, CompileFailure>)
    ensures
        r is Ok <==> spec_parse(text@) is Some,
        r matches Ok(e) ==> spec_parse(text@) == Some(e@),
        r is Err ==> r matches Err(CompileFailure::Parse(_)),
{
    match parse(text.as_str()) {
        Ok(e) => Ok(e),
        Err(pe) => Err(CompileFailure::Parse(pe)),
    }
}

/// Compiles one text (the single-expression shape) or four (`initz`, `step`,
/// `escape2`, `maxiter`, the fractal shape; an empty `initz` asks for the Newton
/// seed) into a module that exports `return_thing`.
pub fn compile<A: Binary64>(texts: &[String]) -> (r: Result<Vec<u8>, CompileFailure>)
    ensures
        (texts@.len() != 1 && texts@.len() != 4) <==> r matches Err(CompileFailure::TextCount),
        (r matches Err(CompileFailure::Parse(_))) <==> exists|k: int|
            0 <= k < texts@.len() && is_used(texts@, k) && spec_parse(#[trigger] texts@[k]@) is None,
        r matches Ok(bytes) ==> well_formed_module(bytes@),
        texts_lower(texts@) ==> (r is Ok || r matches Err(CompileFailure::Compile(CompileError::TooLarge))),
        r matches Ok(bytes) ==> (texts@.len() == 1 ==> fractal_module(
            bytes@,
            seq![(Seq::<ValType>::empty(), seq![ValType::F64])],
        )),
        r matches Ok(bytes) ==> (texts@.len() == 4 ==> fractal_module(
            bytes@,
            fractal_fn_types(texts@[0]@.len() == 0),
        )),
{
    if texts.len() == 1 {
        let e = parse_text(&texts[0])?;
        return match backend_single::<A>(&e) {
            Ok(bytes) => Ok(bytes),
            Err(ce) => Err(CompileFailure::Compile(ce)),
        };
    }
    if texts.len() != 4 {
        return Err(CompileFailure::TextCount);
    }
    compile_fractal::<A>(texts)
}

#[verifier::rlimit(100)]
fn compile_fractal<A: Binary64>(texts: &[String]) -> (r: Result<Vec<u8>, CompileFailure>)
    requires
        texts@.len() == 4,
    ensures
        !(r matches Err(CompileFailure::TextCount)),
        (r matches Err(CompileFailure::Parse(_))) <==> exists|k: int|
            0 <= k < texts@.len() && is_used(texts@, k) && spec_parse(#[trigger] texts@[k]@) is None,
        r matches Ok(bytes) ==> well_formed_module(bytes@) && fractal_module(
            bytes@,
            fractal_fn_types(texts@[0]@.len() == 0),
        ),
        texts_lower(texts@) ==> (r is Ok || r matches Err(CompileFailure::Compile(CompileError::TooLarge))),
        texts_lower(texts@) && texts_size(texts@) <= max_source_size() ==> r is Ok,
        r is Ok && texts@.len() == 4 ==> known_expr(tree(texts@[1]), loop_scope())
            && known_expr(tree(texts@[2]), loop_scope()) && known_expr(tree(texts@[3]), loop_scope()),
        r is Ok && texts@.len() == 4 && texts@[0]@.len() == 0 ==> deriv_expr(tree(texts@[1]), solver_scope()),
{
    let newton = texts[0].as_str().is_empty();
    let initz = if newton {
        None
    } else {
        Some(parse_text(&texts[0])?)
    };
    let step = parse_text(&texts[1])?;
    let escape2 = parse_text(&texts[2])?;
    let maxiter = parse_text(&texts[3])?;
    let result = match &initz {
        Some(e) => backend::<A>(Some(e), &step, &escape2, &maxiter),
        None => backend::<A>(None, &step, &escape2, &maxiter),
    };
    match result {
        Ok(bytes) => Ok(bytes),
        Err(ce) => Err(CompileFailure::Compile(ce)),
    }
}

} // verus!
