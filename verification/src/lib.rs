//! A schema-typed, path-addressable configuration tree.
//!
//! The tree tracks which settings were explicitly modified, supports typed
//! edits with validation, resolves paths for read and write access, and
//! materializes the minimal overlay of modified entries as a generic value.
//!
//! - [`value`]: generic values — overlays, defaults and numbers.
//! - [`node`]: the tree itself, its model and well-formedness.
//! - [`path`]: addresses into the tree and resolution errors.
//! - [`num`]: the integer and floating point text grammars.
//! - [`builder`]: building a fresh tree from a schema description.
//! - [`resolve`]: navigating a tree by a path.
//! - [`edit`]: the typed edit operations.
//! - [`materialize`]: the minimal overlay of modified entries.
//! - [`laws`]: properties relating all of the above, proved once.

pub mod builder;
pub mod edit;
pub mod laws;
pub mod materialize;
pub mod node;
pub mod num;
pub mod path;
pub mod resolve;
pub mod value;
