//! Paths: ordered addresses into the tree, and the errors resolution can
//! produce.

use vstd::prelude::*;

verus! {

/// One step of a path: a field name (valid against an object) or an index
/// (valid against an array by position, or against an enum by variant index).
#[derive(Debug, PartialEq, Eq)]
pub enum PathComponent {
    Name(String),
    Index(usize),
}

/// Mathematical model of a `PathComponent`.
pub enum SpecPathComponent {
    Name(Seq<char>),
    Index(int),
}

impl View for PathComponent {
    type V = SpecPathComponent;

    open spec fn view(&self) -> SpecPathComponent {
        match self {
            PathComponent::Name(s) => SpecPathComponent::Name(s@),
            PathComponent::Index(i) => SpecPathComponent::Index(*i as int),
        }
    }
}

/// Models of the components of a path, in order.
pub open spec fn view_path(ps: Seq<PathComponent>) -> Seq<SpecPathComponent> {
    ps.map_values(|p: PathComponent| p@)
}

/// Why resolving a path failed. Both outcomes are recoverable: they mean
/// "nothing to show or edit here", never a broken tree.
#[derive(Clone, Copy, PartialEq, Eq, Structural, Debug)]
pub enum PathError {
    /// A name or index addressed a child that does not exist.
    NotFound,
    /// A component was applied to a node kind it cannot address.
    TypeMismatch,
}

} // verus!
