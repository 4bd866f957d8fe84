//! Compiles a small expression language over complex numbers into a standalone
//! WebAssembly module that computes escape-time fractal iteration counts.

pub mod ast;
pub mod backend;
pub mod binary64;
pub mod compiler;
pub mod dag;
pub mod grammar;
pub mod leb128;
pub mod module_builder;
pub mod parse;

pub use ast::Expr;
pub use backend::{CompileError, Structure, backend, backend_single};
pub use binary64::Binary64;
pub use compiler::{CompileFailure, compile};
pub use dag::{Dag, DagCalc, DagNode, Effect, EffectType};
pub use module_builder::{BlockType, Func, Local, ModuleBuilder, ValType};
pub use parse::{ParseErr, parse};
