//! Edit operations: the discrete, typed mutations the tree supports, each
//! addressed by a path.
//!
//! The four set/select operations mark the target and every container on the
//! way to it as modified, so that materialization emits exactly the edited
//! subtrees. Applying a default clears the target subtree back toward its
//! schema default and marks the target unmodified; containers above it keep
//! their own flags.

use vstd::prelude::*;

use crate::node::{
    lemma_view_container_list, lemma_view_entry_list, view_container_list, view_entry_list, Node,
    NodeContainer, NodeEnum, NodeNumber, SpecContainer, SpecNode, SpecNumber,
};
use crate::num::{parse_number_text, spec_parse_number};
use crate::path::{view_path, PathComponent, PathError, SpecPathComponent};
use crate::resolve::{key_index, lemma_key_index};
use crate::value::{ConfigValue, SpecValue};

verus! {

/// One edit: what to do at the container a path resolves to.
#[derive(Debug, PartialEq, Eq)]
pub enum Change {
    /// Set a boolean leaf; the target must be a `Bool` node.
    SetBool(bool),
    /// Set a string leaf; the target must be a `Str` node.
    SetString(String),
    /// Store numeric text and reparse it; the target must be a `Number` node.
    /// Invalid text is stored with no parsed value and never refused.
    SetNumberText(String),
    /// Select a variant by index; the target must be an `Enum` node.
    SelectEnumVariant(usize),
    /// Reset the target subtree toward its schema default, discarding all
    /// explicit state below the target. This is destructive.
    ApplyDefault,
}

/// Mathematical model of a `Change`.
pub enum SpecChange {
    SetBool(bool),
    SetString(Seq<char>),
    SetNumberText(Seq<char>),
    SelectEnumVariant(int),
    ApplyDefault,
}

impl View for Change {
    type V = SpecChange;

    open spec fn view(&self) -> SpecChange {
        match self {
            Change::SetBool(b) => SpecChange::SetBool(*b),
            Change::SetString(s) => SpecChange::SetString(s@),
            Change::SetNumberText(s) => SpecChange::SetNumberText(s@),
            Change::SelectEnumVariant(i) => SpecChange::SelectEnumVariant(*i as int),
            Change::ApplyDefault => SpecChange::ApplyDefault,
        }
    }
}

/// Whether an edit marks the containers it passes through as modified.
/// Applying a default does not: it removes explicit state.
pub open spec fn marks_modified(ch: SpecChange) -> bool {
    !(ch is ApplyDefault)
}

/// The value a scalar node takes back from a default. A default of the
/// wrong shape is ignored, not rejected.
pub open spec fn default_bool(d: Option<SpecValue>) -> Option<bool> {
    match d {
        Some(SpecValue::Bool(b)) => Some(b),
        _ => None,
    }
}

/// See `default_bool`.
pub open spec fn default_text(d: Option<SpecValue>) -> Option<Seq<char>> {
    match d {
        Some(SpecValue::Text(t)) => Some(t),
        _ => None,
    }
}

/// See `default_bool`. Any numeric default is accepted for a number node.
pub open spec fn default_number(d: Option<SpecValue>) -> Option<crate::value::SpecNumberValue> {
    match d {
        Some(SpecValue::Num(n)) => Some(n),
        _ => None,
    }
}

/// The subtree `c` reset toward its schema default: scalars take their
/// default value back (or become unset), a number's edit buffer is emptied,
/// every descendant loses its explicit state, and nothing in the result is
/// marked modified.
pub open spec fn apply_default_spec(c: SpecContainer) -> SpecContainer
    decreases c,
{
    SpecContainer {
        node: apply_default_node(c.node, c.default),
        modified: false,
        description: c.description,
        default: c.default,
    }
}

/// See `apply_default_spec`; `d` is the owning container's default.
pub open spec fn apply_default_node(n: SpecNode, d: Option<SpecValue>) -> SpecNode
    decreases n,
    via apply_default_node_decreases
{
    match n {
        SpecNode::Null => SpecNode::Null,
        SpecNode::Bool(_) => SpecNode::Bool(default_bool(d)),
        SpecNode::Str(_) => SpecNode::Str(default_text(d)),
        SpecNode::Number(num) => SpecNode::Number(
            SpecNumber { kind: num.kind, value: default_number(d), raw_text: Seq::empty() },
        ),
        SpecNode::Object(es) => SpecNode::Object(clear_entry_list(es)),
        SpecNode::Enum { variants, .. } => SpecNode::Enum {
            variants: clear_container_list(variants),
            selected: None,
        },
        SpecNode::Array(vs) => SpecNode::Array(
            match vs {
                Some(cs) => Some(clear_container_list(cs)),
                None => None,
            },
        ),
        SpecNode::Value(v) => SpecNode::Value(v),
        SpecNode::Any => SpecNode::Any,
    }
}

#[via_fn]
proof fn apply_default_node_decreases(n: SpecNode, d: Option<SpecValue>) {
    match n {
        SpecNode::Array(vs) => {
            match vs {
                Some(cs) => {
                    assert(decreases_to!(n => n->Array_0));
                    assert(decreases_to!(n->Array_0 => n->Array_0->0));
                },
                None => {},
            }
        },
        _ => {},
    }
}

/// Each entry's subtree reset toward its default, names kept.
pub open spec fn clear_entry_list(es: Seq<(Seq<char>, SpecContainer)>) -> Seq<
    (Seq<char>, SpecContainer),
>
    decreases es,
{
    if es.len() == 0 {
        Seq::empty()
    } else {
        clear_entry_list(es.drop_last()).push(
            (es.last().0, apply_default_spec(es.last().1)),
        )
    }
}

/// Each container reset toward its default, order kept.
pub open spec fn clear_container_list(cs: Seq<SpecContainer>) -> Seq<SpecContainer>
    decreases cs,
{
    if cs.len() == 0 {
        Seq::empty()
    } else {
        clear_container_list(cs.drop_last()).push(apply_default_spec(cs.last()))
    }
}

/// Clearing an entry list clears each entry, names kept.
pub proof fn lemma_clear_entry_list(es: Seq<(Seq<char>, SpecContainer)>)
    ensures
        clear_entry_list(es).len() == es.len(),
        forall|i: int| 0 <= i < es.len()
            ==> clear_entry_list(es)[i] == (#[trigger] es[i].0, apply_default_spec(es[i].1)),
    decreases es,
{
    if es.len() > 0 {
        lemma_clear_entry_list(es.drop_last());
        assert forall|i: int| 0 <= i < es.len()
            implies clear_entry_list(es)[i] == (#[trigger] es[i].0, apply_default_spec(es[i].1))
        by {
            if i < es.len() - 1 {
                assert(es.drop_last()[i] == es[i]);
            } else {
                assert(es[i] == es.last());
            }
        }
    }
}

/// Clearing a container list clears each container, order kept.
pub proof fn lemma_clear_container_list(cs: Seq<SpecContainer>)
    ensures
        clear_container_list(cs).len() == cs.len(),
        forall|i: int| 0 <= i < cs.len()
            ==> clear_container_list(cs)[i] == apply_default_spec(#[trigger] cs[i]),
    decreases cs,
{
    if cs.len() > 0 {
        lemma_clear_container_list(cs.drop_last());
        assert forall|i: int| 0 <= i < cs.len()
            implies clear_container_list(cs)[i] == apply_default_spec(#[trigger] cs[i]) by {
            if i < cs.len() - 1 {
                assert(cs.drop_last()[i] == cs[i]);
            } else {
                assert(cs[i] == cs.last());
            }
        }
    }
}

/// What one edit does at the container itself (the path is exhausted).
pub open spec fn apply_leaf_spec(c: SpecContainer, ch: SpecChange) -> Result<
    SpecContainer,
    PathError,
> {
    match ch {
        SpecChange::SetBool(b) => match c.node {
            SpecNode::Bool(_) => Ok(
                SpecContainer {
                    node: SpecNode::Bool(Some(b)),
                    modified: true,
                    description: c.description,
                    default: c.default,
                },
            ),
            _ => Err(PathError::TypeMismatch),
        },
        SpecChange::SetString(t) => match c.node {
            SpecNode::Str(_) => Ok(
                SpecContainer {
                    node: SpecNode::Str(Some(t)),
                    modified: true,
                    description: c.description,
                    default: c.default,
                },
            ),
            _ => Err(PathError::TypeMismatch),
        },
        SpecChange::SetNumberText(t) => match c.node {
            SpecNode::Number(num) => Ok(
                SpecContainer {
                    node: SpecNode::Number(
                        SpecNumber {
                            kind: num.kind,
                            value: spec_parse_number(num.kind, t),
                            raw_text: t,
                        },
                    ),
                    modified: true,
                    description: c.description,
                    default: c.default,
                },
            ),
            _ => Err(PathError::TypeMismatch),
        },
        SpecChange::SelectEnumVariant(i) => match c.node {
            SpecNode::Enum { variants, .. } => if 0 <= i < variants.len() {
                Ok(
                    SpecContainer {
                        node: SpecNode::Enum { variants, selected: Some(i) },
                        modified: true,
                        description: c.description,
                        default: c.default,
                    },
                )
            } else {
                Err(PathError::NotFound)
            },
            _ => Err(PathError::TypeMismatch),
        },
        SpecChange::ApplyDefault => Ok(apply_default_spec(c)),
    }
}

/// What one edit does to the whole tree: resolve the path exactly as
/// `resolve_spec` does, apply the change at the target, and rebuild the
/// spine. A failure leaves the tree untouched. On success every container on
/// the way to the target is marked modified, except when the change is
/// `ApplyDefault`, which leaves the spine's flags as they were.
pub open spec fn apply_change_spec(
    c: SpecContainer,
    path: Seq<SpecPathComponent>,
    ch: SpecChange,
) -> Result<SpecContainer, PathError>
    decreases path.len(),
{
    if path.len() == 0 {
        apply_leaf_spec(c, ch)
    } else {
        match path[0] {
            SpecPathComponent::Name(nm) => match c.node {
                SpecNode::Object(es) => {
                    let k = key_index(es, nm);
                    if k < 0 {
                        Err(PathError::NotFound)
                    } else {
                        match apply_change_spec(es[k].1, path.drop_first(), ch) {
                            Ok(child) => Ok(
                                SpecContainer {
                                    node: SpecNode::Object(es.update(k, (es[k].0, child))),
                                    modified: c.modified || marks_modified(ch),
                                    description: c.description,
                                    default: c.default,
                                },
                            ),
                            Err(e) => Err(e),
                        }
                    }
                },
                _ => Err(PathError::TypeMismatch),
            },
            SpecPathComponent::Index(i) => match c.node {
                SpecNode::Array(vs) => match vs {
                    Some(cs) => if 0 <= i < cs.len() {
                        match apply_change_spec(cs[i], path.drop_first(), ch) {
                            Ok(child) => Ok(
                                SpecContainer {
                                    node: SpecNode::Array(Some(cs.update(i, child))),
                                    modified: c.modified || marks_modified(ch),
                                    description: c.description,
                                    default: c.default,
                                },
                            ),
                            Err(e) => Err(e),
                        }
                    } else {
                        Err(PathError::NotFound)
                    },
                    None => Err(PathError::NotFound),
                },
                SpecNode::Enum { variants, selected } => if 0 <= i < variants.len() {
                    match apply_change_spec(variants[i], path.drop_first(), ch) {
                        Ok(child) => Ok(
                            SpecContainer {
                                node: SpecNode::Enum {
                                    variants: variants.update(i, child),
                                    selected,
                                },
                                modified: c.modified || marks_modified(ch),
                                description: c.description,
                                default: c.default,
                            },
                        ),
                        Err(e) => Err(e),
                    }
                } else {
                    Err(PathError::NotFound)
                },
                _ => Err(PathError::TypeMismatch),
            },
        }
    }
}

/// Removing an element and inserting another at its place is an update.
proof fn lemma_remove_insert_update<T>(s: Seq<T>, i: int, v: T)
    requires
        0 <= i < s.len(),
    ensures
        s.remove(i).insert(i, v) =~= s.update(i, v),
{
}

impl NodeContainer {
    /// Reset this container toward its schema default, leaving the original
    /// untouched; see `apply_default_spec` for exactly what that means.
    fn cleared(&self) -> (r: NodeContainer)
        ensures
            r@ == apply_default_spec(self@),
        decreases self,
    {
        proof {
            assert(decreases_to!(*self => self.node));
        }
        let node = cleared_node(&self.node, &self.default);
        NodeContainer {
            node,
            modified: false,
            description: match &self.description {
                Some(d) => Some(d.clone()),
                None => None,
            },
            default: match &self.default {
                Some(v) => Some(v.clone()),
                None => None,
            },
        }
    }
}

/// Reset a node toward `d`, the default of the container that owns it;
/// see `apply_default_node`.
#[verifier::loop_isolation(false)]
fn cleared_node(n: &Node, d: &Option<ConfigValue>) -> (r: Node)
    ensures
        r.model() == apply_default_node(
            n.model(),
            match d {
                Some(v) => Some(v@),
                None => None,
            },
        ),
    decreases n,
{
    match n {
        Node::Null => Node::Null,
        Node::Bool(_) => Node::Bool(
            match d {
                Some(ConfigValue::Bool(b)) => Some(*b),
                _ => None,
            },
        ),
        Node::Str(_) => Node::Str(
            match d {
                Some(ConfigValue::Text(t)) => Some(t.clone()),
                _ => None,
            },
        ),
        Node::Number(num) => Node::Number(
            NodeNumber {
                kind: num.kind,
                value: match d {
                    Some(ConfigValue::Num(nv)) => Some(nv.dup()),
                    _ => None,
                },
                raw_text: String::new(),
            },
        ),
        Node::Object(es) => {
            let mut out: Vec<(String, NodeContainer)> = Vec::new();
            let mut i: usize = 0;
            while i < es.len()
                invariant
                    i <= es.len(),
                    out@.len() == i as int,
                    forall|j: int| 0 <= j < i as int ==> #[trigger] out@[j].0@ == es@[j].0@,
                    forall|j: int| 0 <= j < i as int ==> #[trigger] out@[j].1.model()
                        == apply_default_spec(es@[j].1.model()),
                decreases es@.len() - i,
            {
                proof {
                    assert(decreases_to!(*n => n->Object_0));
                    assert(decreases_to!(n->Object_0 => es@));
                    assert(decreases_to!(es@ => es@[i as int]));
                    assert(decreases_to!(es@[i as int] => es@[i as int].1));
                }
                let pair = &es[i];
                out.push((pair.0.clone(), pair.1.cleared()));
                i = i + 1;
            }
            let r = Node::Object(out);
            proof {
                lemma_view_entry_list(out@);
                lemma_view_entry_list(es@);
                lemma_clear_entry_list(view_entry_list(es@));
                assert forall|k: int| 0 <= k < out@.len()
                    implies view_entry_list(out@)[k] == clear_entry_list(
                    view_entry_list(es@),
                )[k] by {
                    assert(view_entry_list(out@)[k] == (out@[k].0@, out@[k].1.model()));
                    assert(view_entry_list(es@)[k] == (es@[k].0@, es@[k].1.model()));
                    assert(out@[k].0@ == es@[k].0@);
                    assert(out@[k].1.model() == apply_default_spec(es@[k].1.model()));
                    assert(clear_entry_list(view_entry_list(es@))[k] == (
                        view_entry_list(es@)[k].0,
                        apply_default_spec(view_entry_list(es@)[k].1),
                    ));
                }
                assert(view_entry_list(out@) =~= clear_entry_list(view_entry_list(es@)));
            }
            r
        },
        Node::Enum(e) => {
            let mut out: Vec<NodeContainer> = Vec::new();
            let mut i: usize = 0;
            while i < e.variants.len()
                invariant
                    i <= e.variants.len(),
                    out@.len() == i as int,
                    forall|j: int| 0 <= j < i as int
                        ==> #[trigger] out@[j].model() == apply_default_spec(
                            e.variants@[j].model(),
                        ),
                decreases e.variants@.len() - i,
            {
                proof {
                    assert(decreases_to!(*n => n->Enum_0));
                    assert(decreases_to!(n->Enum_0 => n->Enum_0.variants));
                    assert(decreases_to!(n->Enum_0.variants => e.variants@));
                    assert(decreases_to!(e.variants@ => e.variants@[i as int]));
                }
                out.push(e.variants[i].cleared());
                i = i + 1;
            }
            let r = Node::Enum(NodeEnum { variants: out, selected: None });
            proof {
                lemma_view_container_list(out@);
                lemma_view_container_list(e.variants@);
                lemma_clear_container_list(view_container_list(e.variants@));
                assert forall|k: int| 0 <= k < out@.len()
                    implies view_container_list(out@)[k] == clear_container_list(
                    view_container_list(e.variants@),
                )[k] by {
                    assert(view_container_list(out@)[k] == out@[k].model());
                    assert(view_container_list(e.variants@)[k] == e.variants@[k].model());
                }
                assert(view_container_list(out@) =~= clear_container_list(
                    view_container_list(e.variants@),
                ));
            }
            r
        },
        Node::Array(vs) => match vs {
            Some(cs) => {
                let mut out: Vec<NodeContainer> = Vec::new();
                let mut i: usize = 0;
                while i < cs.len()
                    invariant
                        i <= cs.len(),
                        out@.len() == i as int,
                        forall|j: int| 0 <= j < i as int
                            ==> #[trigger] out@[j].model() == apply_default_spec(
                                cs@[j].model(),
                            ),
                    decreases cs@.len() - i,
                {
                    proof {
                        assert(decreases_to!(*n => n->Array_0));
                        assert(decreases_to!(n->Array_0 => n->Array_0->0));
                        assert(decreases_to!(n->Array_0->0 => cs@));
                        assert(decreases_to!(cs@ => cs@[i as int]));
                    }
                    out.push(cs[i].cleared());
                    i = i + 1;
                }
                let r = Node::Array(Some(out));
                proof {
                    lemma_view_container_list(out@);
                    lemma_view_container_list(cs@);
                    lemma_clear_container_list(view_container_list(cs@));
                    assert forall|k: int| 0 <= k < out@.len()
                        implies view_container_list(out@)[k] == clear_container_list(
                        view_container_list(cs@),
                    )[k] by {
                        assert(view_container_list(out@)[k] == out@[k].model());
                        assert(view_container_list(cs@)[k] == cs@[k].model());
                    }
                    assert(view_container_list(out@) =~= clear_container_list(
                        view_container_list(cs@),
                    ));
                }
                r
            },
            None => Node::Array(None),
        },
        Node::Value(v) => Node::Value(v.clone()),
        Node::Any => Node::Any,
    }
}

impl NodeContainer {
    /// Apply one edit at the end of `path`. On success the tree holds the
    /// edit and, for the set and select operations, every container on the
    /// way to the target is marked modified; on failure the tree is exactly
    /// as it was, and the error says why, as `apply_change_spec` states.
    pub fn apply_change(&mut self, path: &[PathComponent], change: &Change) -> (r: Result<
        (),
        PathError,
    >)
        ensures
            match r {
                Ok(_) => apply_change_spec(old(self)@, view_path(path@), change@) == Ok::<
                    SpecContainer,
                    PathError,
                >(final(self)@),
                Err(e) => apply_change_spec(old(self)@, view_path(path@), change@) == Err::<
                    SpecContainer,
                    PathError,
                >(e) && final(self)@ == old(self)@,
            },
            old(self)@.wf() && r is Ok ==> final(self)@.wf(),
    {
        proof {
            assert(view_path(path@).skip(0) =~= view_path(path@));
        }
        let r = self.apply_from(path, 0, change);
        proof {
            if r is Ok && old(self)@.wf() {
                crate::laws::lemma_apply_preserves_wf(old(self)@, view_path(path@), change@);
            }
        }
        r
    }

    /// Apply one edit at the target addressed by `path` from `from` on.
    #[verifier::loop_isolation(false)]
    fn apply_from(&mut self, path: &[PathComponent], from: usize, change: &Change) -> (r: Result<
        (),
        PathError,
    >)
        requires
            from <= path@.len(),
        ensures
            match r {
                Ok(_) => apply_change_spec(old(self)@, view_path(path@).skip(from as int), change@)
                    == Ok::<SpecContainer, PathError>(final(self)@),
                Err(e) => apply_change_spec(
                    old(self)@,
                    view_path(path@).skip(from as int),
                    change@,
                ) == Err::<SpecContainer, PathError>(e) && final(self)@ == old(self)@,
            },
        decreases path@.len() - from,
    {
        let ghost rest = view_path(path@).skip(from as int);
        if from == path.len() {
            return self.apply_here(change);
        }
        proof {
            assert(rest[0] == path@[from as int]@);
            assert(rest.drop_first() =~= view_path(path@).skip(from as int + 1));
        }
        let is_clear = match change {
            Change::ApplyDefault => true,
            _ => false,
        };
        let r: Result<(), PathError> = match (&path[from], &mut self.node) {
            (PathComponent::Name(nm), Node::Object(es)) => {
                let ghost es0 = es@;
                let ghost es_spec = view_entry_list(es0);
                proof {
                    lemma_view_entry_list(es0);
                    lemma_key_index(es_spec, nm@);
                }
                let n_len = es.len();
                let mut i: usize = 0;
                while i < n_len
                    invariant
                        i <= n_len,
                        es@ == es0,
                        forall|j: int| 0 <= j < i as int ==> #[trigger] es_spec[j].0 != nm@,
                    decreases n_len - i,
                {
                    if es[i].0 == *nm {
                        break;
                    }
                    i = i + 1;
                }
                if i == n_len {
                    proof {
                        assert(key_index(es_spec, nm@) == -1);
                    }
                    return Err(PathError::NotFound);
                }
                proof {
                    assert(es_spec[i as int].0 == nm@);
                    assert(key_index(es_spec, nm@) == i as int);
                }
                let (key, mut child) = es.remove(i);
                let ghost child0 = child;
                let rr = child.apply_from(path, from + 1, change);
                es.insert(i, (key, child));
                proof {
                    lemma_remove_insert_update(es0, i as int, (key, child));
                    assert(es@ =~= es0.update(i as int, (key, child)));
                    lemma_view_entry_list(es@);
                    assert(child0 == es0[i as int].1);
                    if rr is Ok {
                        assert forall|k: int| 0 <= k < es@.len()
                            implies view_entry_list(es@)[k] == es_spec.update(
                            i as int,
                            (es_spec[i as int].0, child@),
                        )[k] by {
                            assert(view_entry_list(es@)[k] == (es@[k].0@, es@[k].1.model()));
                            assert(es_spec[k] == (es0[k].0@, es0[k].1.model()));
                        }
                        assert(view_entry_list(es@) =~= es_spec.update(
                            i as int,
                            (es_spec[i as int].0, child@),
                        ));
                    } else {
                        assert forall|k: int| 0 <= k < es@.len()
                            implies view_entry_list(es@)[k] == es_spec[k] by {
                            assert(view_entry_list(es@)[k] == (es@[k].0@, es@[k].1.model()));
                            assert(es_spec[k] == (es0[k].0@, es0[k].1.model()));
                        }
                        assert(view_entry_list(es@) =~= es_spec);
                    }
                }
                rr
            },
            (PathComponent::Index(ix), Node::Array(vs)) => match vs {
                Some(cs) => {
                    let ghost cs0 = cs@;
                    let ghost cs_spec = view_container_list(cs0);
                    proof {
                        lemma_view_container_list(cs0);
                    }
                    if *ix < cs.len() {
                        let mut child = cs.remove(*ix);
                        let ghost child0 = child;
                        let rr = child.apply_from(path, from + 1, change);
                        cs.insert(*ix, child);
                        proof {
                            lemma_remove_insert_update(cs0, *ix as int, child);
                            assert(cs@ =~= cs0.update(*ix as int, child));
                            lemma_view_container_list(cs@);
                            assert(child0 == cs0[*ix as int]);
                            if rr is Ok {
                                assert forall|k: int| 0 <= k < cs@.len()
                                    implies view_container_list(cs@)[k] == cs_spec.update(
                                    *ix as int,
                                    child@,
                                )[k] by {
                                    assert(view_container_list(cs@)[k] == cs@[k].model());
                                    assert(cs_spec[k] == cs0[k].model());
                                }
                                assert(view_container_list(cs@) =~= cs_spec.update(
                                    *ix as int,
                                    child@,
                                ));
                            } else {
                                assert forall|k: int| 0 <= k < cs@.len()
                                    implies view_container_list(cs@)[k] == cs_spec[k] by {
                                    assert(view_container_list(cs@)[k] == cs@[k].model());
                                    assert(cs_spec[k] == cs0[k].model());
                                }
                                assert(view_container_list(cs@) =~= cs_spec);
                            }
                        }
                        rr
                    } else {
                        return Err(PathError::NotFound);
                    }
                },
                None => {
                    return Err(PathError::NotFound);
                },
            },
            (PathComponent::Index(ix), Node::Enum(e)) => {
                let ghost vs0 = e.variants@;
                let ghost vs_spec = view_container_list(vs0);
                proof {
                    lemma_view_container_list(vs0);
                }
                if *ix < e.variants.len() {
                    let mut child = e.variants.remove(*ix);
                    let ghost child0 = child;
                    let rr = child.apply_from(path, from + 1, change);
                    e.variants.insert(*ix, child);
                    proof {
                        lemma_remove_insert_update(vs0, *ix as int, child);
                        assert(e.variants@ =~= vs0.update(*ix as int, child));
                        lemma_view_container_list(e.variants@);
                        assert(child0 == vs0[*ix as int]);
                        if rr is Ok {
                            assert forall|k: int| 0 <= k < e.variants@.len()
                                implies view_container_list(e.variants@)[k] == vs_spec.update(
                                *ix as int,
                                child@,
                            )[k] by {
                                assert(view_container_list(e.variants@)[k] == e.variants@[
                                    k
                                ].model());
                                assert(vs_spec[k] == vs0[k].model());
                            }
                            assert(view_container_list(e.variants@) =~= vs_spec.update(
                                *ix as int,
                                child@,
                            ));
                        } else {
                            assert forall|k: int| 0 <= k < e.variants@.len()
                                implies view_container_list(e.variants@)[k] == vs_spec[k] by {
                                assert(view_container_list(e.variants@)[k] == e.variants@[
                                    k
                                ].model());
                                assert(vs_spec[k] == vs0[k].model());
                            }
                            assert(view_container_list(e.variants@) =~= vs_spec);
                        }
                    }
                    rr
                } else {
                    return Err(PathError::NotFound);
                }
            },
            (PathComponent::Name(_), _) => {
                return Err(PathError::TypeMismatch);
            },
            (PathComponent::Index(_), _) => {
                return Err(PathError::TypeMismatch);
            },
        };
        match r {
            Ok(_) => {
                if !is_clear {
                    self.modified = true;
                }
                Ok(())
            },
            Err(e) => Err(e),
        }
    }

    /// Apply one edit at this container itself.
    fn apply_here(&mut self, change: &Change) -> (r: Result<(), PathError>)
        ensures
            match r {
                Ok(_) => apply_leaf_spec(old(self)@, change@) == Ok::<SpecContainer, PathError>(
                    final(self)@,
                ),
                Err(e) => apply_leaf_spec(old(self)@, change@) == Err::<SpecContainer, PathError>(
                    e,
                ) && final(self)@ == old(self)@,
            },
    {
        match change {
            Change::SetBool(b) => match &self.node {
                Node::Bool(_) => {
                    self.node = Node::Bool(Some(*b));
                    self.modified = true;
                    Ok(())
                },
                _ => Err(PathError::TypeMismatch),
            },
            Change::SetString(s) => match &self.node {
                Node::Str(_) => {
                    self.node = Node::Str(Some(s.clone()));
                    self.modified = true;
                    Ok(())
                },
                _ => Err(PathError::TypeMismatch),
            },
            Change::SetNumberText(s) => match &self.node {
                Node::Number(num) => {
                    let kind = num.kind;
                    let value = parse_number_text(kind, s.as_str());
                    self.node = Node::Number(NodeNumber { kind, value, raw_text: s.clone() });
                    self.modified = true;
                    Ok(())
                },
                _ => Err(PathError::TypeMismatch),
            },
            Change::SelectEnumVariant(ix) => match &mut self.node {
                Node::Enum(e) => {
                    proof {
                        lemma_view_container_list(e.variants@);
                    }
                    if *ix < e.variants.len() {
                        e.selected = Some(*ix);
                        self.modified = true;
                        Ok(())
                    } else {
                        Err(PathError::NotFound)
                    }
                },
                _ => Err(PathError::TypeMismatch),
            },
            Change::ApplyDefault => {
                let fresh = self.cleared();
                *self = fresh;
                Ok(())
            },
        }
    }
}

} // verus!
