//! Detection of circular import dependencies among the source files of a
//! JavaScript / TypeScript project tree.
//!
//! The library resolves import specifiers (relative imports, compiler path
//! aliases, monorepo workspace packages) against an explicit model of the
//! file tree, builds a directed file-dependency graph, finds its strongly
//! connected components, materializes each cyclic component as an ordered,
//! closed edge path, deduplicates equivalent cycles, computes stable,
//! location-independent hashes, and filters cycles against an accepted
//! baseline. All file-system reading, source parsing and output rendering
//! happen outside this crate; the library works on plain values.

pub mod analysis;
pub mod config;
pub mod cycles;
pub mod fileset;
pub mod graph;
pub mod hashing;
pub mod records;
pub mod laws;
pub mod output;
pub mod pathstr;
pub mod resolver;
pub mod tsconfig;
pub mod workspace;

use vstd::prelude::*;

verus! {

} // verus!
