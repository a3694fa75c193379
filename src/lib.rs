//! Named benchmark sets and meta sets kept together in one document, and
//! the resolution of a meta set into everything it reaches.
use vstd::prelude::*;

pub mod document;
pub mod order;
pub mod records;
pub mod resolve;
pub mod store;

pub use document::TopLevel;
pub use records::{BenchmarkSet, GameMap, Mod, ProcedureError, ProcedureKind, ProcedureOverwrite};
pub use resolve::{get_metas_from_meta, get_sets_from_meta, metas_from_document};
pub use store::{
    read_benchmark_set_from_file, read_meta_from_file, write_benchmark_set_to_file,
    write_meta_to_file,
};

verus! {

} // verus!
