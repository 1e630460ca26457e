//! Path resolution: navigating a tree by a path, read-only.

use vstd::prelude::*;

use crate::node::{
    lemma_view_container_list, lemma_view_entry_list, view_container_list, view_entry_list, Node,
    NodeContainer, SpecContainer, SpecNode,
};
use crate::path::{view_path, PathComponent, PathError, SpecPathComponent};

verus! {

/// Index of the first entry named `name`, or -1 when there is none.
pub open spec fn key_index(es: Seq<(Seq<char>, SpecContainer)>, name: Seq<char>) -> int
    decreases es,
{
    if es.len() == 0 {
        -1
    } else if es[0].0 == name {
        0
    } else {
        let r = key_index(es.drop_first(), name);
        if r < 0 {
            -1
        } else {
            1 + r
        }
    }
}

/// `key_index` finds the first entry with the given name, when one exists.
pub proof fn lemma_key_index(es: Seq<(Seq<char>, SpecContainer)>, name: Seq<char>)
    ensures
        -1 <= key_index(es, name) < es.len(),
        key_index(es, name) == -1 ==> forall|i: int| 0 <= i < es.len() ==> es[i].0 != name,
        key_index(es, name) >= 0 ==> es[key_index(es, name)].0 == name,
        key_index(es, name) >= 0 ==> forall|i: int|
            0 <= i < key_index(es, name) ==> es[i].0 != name,
    decreases es,
{
    if es.len() > 0 && es[0].0 != name {
        lemma_key_index(es.drop_first(), name);
        assert forall|i: int| 1 <= i < es.len() implies es.drop_first()[i - 1] == es[i] by {}
    }
}

/// What resolving `path` against `c` yields: the target container, or the
/// first failure met walking the components left to right. An empty path
/// yields `c` itself. An index resolves against an enum regardless of which
/// variant is selected.
pub open spec fn resolve_spec(c: SpecContainer, path: Seq<SpecPathComponent>) -> Result<
    SpecContainer,
    PathError,
>
    decreases path.len(),
{
    if path.len() == 0 {
        Ok(c)
    } else {
        match path[0] {
            SpecPathComponent::Name(n) => match c.node {
                SpecNode::Object(es) => {
                    let k = key_index(es, n);
                    if k < 0 {
                        Err(PathError::NotFound)
                    } else {
                        resolve_spec(es[k].1, path.drop_first())
                    }
                },
                _ => Err(PathError::TypeMismatch),
            },
            SpecPathComponent::Index(i) => match c.node {
                SpecNode::Array(vs) => match vs {
                    Some(cs) => if 0 <= i < cs.len() {
                        resolve_spec(cs[i], path.drop_first())
                    } else {
                        Err(PathError::NotFound)
                    },
                    None => Err(PathError::NotFound),
                },
                SpecNode::Enum { variants, .. } => if 0 <= i < variants.len() {
                    resolve_spec(variants[i], path.drop_first())
                } else {
                    Err(PathError::NotFound)
                },
                _ => Err(PathError::TypeMismatch),
            },
        }
    }
}

impl NodeContainer {
    /// Resolve `path` against this container. Resolution never mutates the
    /// tree; in particular it never touches `modified` flags.
    pub fn get_at<'a>(&'a self, path: &[PathComponent]) -> (r: Result<&'a NodeContainer, PathError>)
        ensures
            match r {
                Ok(c) => resolve_spec(self@, view_path(path@)) == Ok::<SpecContainer, PathError>(
                    c@,
                ),
                Err(e) => resolve_spec(self@, view_path(path@)) == Err::<SpecContainer, PathError>(
                    e,
                ),
            },
    {
        proof {
            assert(view_path(path@).skip(0) =~= view_path(path@));
        }
        self.get_from(path, 0)
    }

    /// Resolve the components of `path` from position `from` on.
    #[verifier::loop_isolation(false)]
    fn get_from<'a>(&'a self, path: &[PathComponent], from: usize) -> (r: Result<
        &'a NodeContainer,
        PathError,
    >)
        requires
            from <= path@.len(),
        ensures
            match r {
                Ok(c) => resolve_spec(self@, view_path(path@).skip(from as int)) == Ok::<
                    SpecContainer,
                    PathError,
                >(c@),
                Err(e) => resolve_spec(self@, view_path(path@).skip(from as int)) == Err::<
                    SpecContainer,
                    PathError,
                >(e),
            },
        decreases path@.len() - from,
    {
        let ghost rest = view_path(path@).skip(from as int);
        if from == path.len() {
            return Ok(self);
        }
        proof {
            assert(rest[0] == path@[from as int]@);
            assert(rest.drop_first() =~= view_path(path@).skip(from as int + 1));
        }
        match (&path[from], &self.node) {
            (PathComponent::Name(n), Node::Object(es)) => {
                let ghost es_spec = view_entry_list(es@);
                proof {
                    lemma_view_entry_list(es@);
                    lemma_key_index(es_spec, n@);
                }
                let mut i: usize = 0;
                while i < es.len()
                    invariant
                        i <= es.len(),
                        es_spec == view_entry_list(es@),
                        es_spec.len() == es@.len(),
                        forall|j: int| 0 <= j < es@.len() ==> #[trigger] es_spec[j] == (
                            es@[j].0@,
                            es@[j].1.model(),
                        ),
                        forall|j: int| 0 <= j < i as int ==> #[trigger] es_spec[j].0 != n@,
                    decreases es@.len() - i,
                {
                    if es[i].0 == *n {
                        proof {
                            assert(key_index(es_spec, n@) == i as int);
                        }
                        return es[i].1.get_from(path, from + 1);
                    }
                    i = i + 1;
                }
                proof {
                    assert(key_index(es_spec, n@) == -1);
                }
                Err(PathError::NotFound)
            },
            (PathComponent::Index(i), Node::Array(vs)) => match vs {
                Some(cs) => {
                    proof {
                        lemma_view_container_list(cs@);
                    }
                    if *i < cs.len() {
                        cs[*i].get_from(path, from + 1)
                    } else {
                        Err(PathError::NotFound)
                    }
                },
                None => Err(PathError::NotFound),
            },
            (PathComponent::Index(i), Node::Enum(e)) => {
                proof {
                    lemma_view_container_list(e.variants@);
                }
                if *i < e.variants.len() {
                    e.variants[*i].get_from(path, from + 1)
                } else {
                    Err(PathError::NotFound)
                }
            },
            (PathComponent::Name(_), _) => Err(PathError::TypeMismatch),
            (PathComponent::Index(_), _) => Err(PathError::TypeMismatch),
        }
    }
}

} // verus!
