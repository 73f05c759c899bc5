//! Glue generation for C++ blocks embedded in a Rust program.
//!
//! A pass visits every call site of an embedded block, translates the Rust
//! types that the block returns and captures by reference into C++ type names
//! and record declarations, and, once every block is resolved, renders one C++
//! source document with the declarations of all blocks.
use vstd::prelude::*;

pub mod block;
pub mod emit;
pub mod foreign;
pub mod recorder;
pub mod toolchain;

pub use block::{CapturedArg, EmbeddedBlock};
pub use emit::{PointerWidth, render_document, render_fn_decl, render_preamble};
pub use foreign::{FieldDef, HostType, IntTy, RecordDef, TypeEntry, TypeError, TypeRegistry};
pub use recorder::{ArgExpr, CallExpr, CppLintPass, Diagnostic, Phase, Problem, Role, Step};
pub use toolchain::{
    build_env,
    decimal_string,
    merge_cxxflags,
    out_dir_from_args,
    resolve_out_dir,
    ARCHIVE_NAME,
    SOURCE_FILE_NAME,
    STD_FLAG,
};

verus! {

} // verus!
