//! The configuration tree itself: typed nodes, the container that carries
//! per-node metadata, their mathematical models and well-formedness.

use vstd::prelude::*;

use crate::value::{ConfigValue, NumberKind, NumberValue, SpecNumberValue, SpecValue};

verus! {

/// A numeric leaf. `raw_text` is the live edit buffer; `value` is the last
/// successfully parsed number, absent when the buffer does not parse under
/// `kind`'s grammar. The two may disagree while an edit is in progress.
#[derive(Debug, PartialEq, Eq)]
pub struct NodeNumber {
    pub kind: NumberKind,
    pub value: Option<NumberValue>,
    pub raw_text: String,
}

/// An enumeration of alternatives. Each variant is a full subtree with its
/// own independent state; `selected`, when present, must index into
/// `variants`. Switching the selection never clears sibling variant state.
#[derive(Debug, PartialEq, Eq)]
pub struct NodeEnum {
    pub variants: Vec<NodeContainer>,
    pub selected: Option<usize>,
}

/// A typed node: exactly one variant is active.
#[derive(Debug, PartialEq, Eq)]
pub enum Node {
    /// No payload.
    Null,
    /// Unset, or explicitly false or true.
    Bool(Option<bool>),
    /// Unset, or an explicit string.
    Str(Option<String>),
    /// A numeric leaf with its edit buffer.
    Number(NodeNumber),
    /// Named children in insertion order; names are unique.
    Object(Vec<(String, NodeContainer)>),
    /// An enumeration of alternative subtrees.
    Enum(NodeEnum),
    /// `None` means the array itself is unset; `Some` holds the elements.
    Array(Option<Vec<NodeContainer>>),
    /// A schema-less subtree, passed through verbatim on materialization.
    Value(ConfigValue),
    /// A node with no defined schema; materialization refuses it.
    Any,
}

/// The addressable unit of the tree: a node plus cross-cutting metadata.
#[derive(Debug, PartialEq, Eq)]
pub struct NodeContainer {
    pub node: Node,
    /// True iff an explicit edit reached this container, or a descendant's
    /// edit requires this subtree to be emitted on materialization.
    pub modified: bool,
    pub description: Option<String>,
    pub default: Option<ConfigValue>,
}

/// Mathematical model of a `NodeNumber`.
pub struct SpecNumber {
    pub kind: NumberKind,
    pub value: Option<SpecNumberValue>,
    pub raw_text: Seq<char>,
}

/// Mathematical model of a `Node`.
pub enum SpecNode {
    Null,
    Bool(Option<bool>),
    Str(Option<Seq<char>>),
    Number(SpecNumber),
    Object(Seq<(Seq<char>, SpecContainer)>),
    Enum { variants: Seq<SpecContainer>, selected: Option<int> },
    Array(Option<Seq<SpecContainer>>),
    Value(SpecValue),
    Any,
}

/// Mathematical model of a `NodeContainer`.
pub struct SpecContainer {
    pub node: SpecNode,
    pub modified: bool,
    pub description: Option<Seq<char>>,
    pub default: Option<SpecValue>,
}

/// Models of the named entries of an object, in order.
pub open spec fn view_entry_list(es: Seq<(String, NodeContainer)>) -> Seq<(Seq<char>, SpecContainer)>
    decreases es,
{
    if es.len() == 0 {
        Seq::empty()
    } else {
        view_entry_list(es.drop_last()).push((es.last().0@, es.last().1.model()))
    }
}

/// Models of a sequence of containers, in order.
pub open spec fn view_container_list(cs: Seq<NodeContainer>) -> Seq<SpecContainer>
    decreases cs,
{
    if cs.len() == 0 {
        Seq::empty()
    } else {
        view_container_list(cs.drop_last()).push(cs.last().model())
    }
}

impl NodeContainer {
    /// Mathematical value of this container, children included.
    pub open spec fn model(&self) -> SpecContainer
        decreases self,
    {
        SpecContainer {
            node: self.node.model(),
            modified: self.modified,
            description: match &self.description {
                Some(d) => Some(d@),
                None => None,
            },
            default: match &self.default {
                Some(v) => Some(v@),
                None => None,
            },
        }
    }
}

impl View for NodeContainer {
    type V = SpecContainer;

    open spec fn view(&self) -> SpecContainer {
        self.model()
    }
}

impl Node {
    /// Mathematical value of this node, children included.
    pub open spec fn model(&self) -> SpecNode
        decreases self,
        via Self::model_decreases
    {
        match self {
            Node::Null => SpecNode::Null,
            Node::Bool(b) => SpecNode::Bool(*b),
            Node::Str(v) => SpecNode::Str(
                match v {
                    Some(s) => Some(s@),
                    None => None,
                },
            ),
            Node::Number(n) => SpecNode::Number(
                SpecNumber {
                    kind: n.kind,
                    value: match &n.value {
                        Some(v) => Some(v@),
                        None => None,
                    },
                    raw_text: n.raw_text@,
                },
            ),
            Node::Object(es) => SpecNode::Object(view_entry_list(es@)),
            Node::Enum(e) => SpecNode::Enum {
                variants: view_container_list(e.variants@),
                selected: match e.selected {
                    Some(i) => Some(i as int),
                    None => None,
                },
            },
            Node::Array(vs) => SpecNode::Array(
                match vs {
                    Some(cs) => Some(view_container_list(cs@)),
                    None => None,
                },
            ),
            Node::Value(v) => SpecNode::Value(v@),
            Node::Any => SpecNode::Any,
        }
    }

    #[via_fn]
    proof fn model_decreases(&self) {
        match self {
            Node::Object(es) => {
                assert(decreases_to!(*self => self->Object_0));
                assert(decreases_to!(self->Object_0 => es@));
            },
            Node::Enum(e) => {
                assert(decreases_to!(*self => self->Enum_0));
                assert(decreases_to!(self->Enum_0 => self->Enum_0.variants));
                assert(decreases_to!(self->Enum_0.variants => e.variants@));
            },
            Node::Array(vs) => {
                match vs {
                    Some(cs) => {
                        assert(decreases_to!(*self => self->Array_0));
                        assert(decreases_to!(self->Array_0 => self->Array_0->0));
                        assert(decreases_to!(self->Array_0->0 => cs@));
                    },
                    None => {},
                }
            },
            _ => {},
        }
    }
}

impl View for Node {
    type V = SpecNode;

    open spec fn view(&self) -> SpecNode {
        self.model()
    }
}

/// The model of an entry list is the model of each entry, in order.
pub proof fn lemma_view_entry_list(es: Seq<(String, NodeContainer)>)
    ensures
        view_entry_list(es).len() == es.len(),
        forall|i: int| 0 <= i < es.len()
            ==> view_entry_list(es)[i] == (#[trigger] es[i].0@, es[i].1.model()),
    decreases es,
{
    if es.len() > 0 {
        lemma_view_entry_list(es.drop_last());
        assert forall|i: int| 0 <= i < es.len()
            implies view_entry_list(es)[i] == (#[trigger] es[i].0@, es[i].1.model()) by {
            if i < es.len() - 1 {
                assert(es.drop_last()[i] == es[i]);
            } else {
                assert(es[i] == es.last());
            }
        }
    }
}

/// The model of a container list is the model of each container, in order.
pub proof fn lemma_view_container_list(cs: Seq<NodeContainer>)
    ensures
        view_container_list(cs).len() == cs.len(),
        forall|i: int| 0 <= i < cs.len()
            ==> view_container_list(cs)[i] == #[trigger] cs[i].model(),
    decreases cs,
{
    if cs.len() > 0 {
        lemma_view_container_list(cs.drop_last());
        assert forall|i: int| 0 <= i < cs.len()
            implies view_container_list(cs)[i] == #[trigger] cs[i].model() by {
            if i < cs.len() - 1 {
                assert(cs.drop_last()[i] == cs[i]);
            } else {
                assert(cs[i] == cs.last());
            }
        }
    }
}

/// Keys of an object's entries are pairwise distinct.
pub open spec fn unique_keys(es: Seq<(Seq<char>, SpecContainer)>) -> bool {
    forall|i: int, j: int| 0 <= i < j < es.len() ==> es[i].0 != es[j].0
}

/// Every entry's subtree is well-formed.
pub open spec fn wf_entry_list(es: Seq<(Seq<char>, SpecContainer)>) -> bool
    decreases es,
{
    if es.len() == 0 {
        true
    } else {
        wf_entry_list(es.drop_last()) && es.last().1.wf()
    }
}

/// Every container in the sequence is well-formed.
pub open spec fn wf_container_list(cs: Seq<SpecContainer>) -> bool
    decreases cs,
{
    if cs.len() == 0 {
        true
    } else {
        wf_container_list(cs.drop_last()) && cs.last().wf()
    }
}

impl SpecContainer {
    /// Structural invariant of a tree: object keys are unique and an enum's
    /// selection, when present, indexes into its variants.
    pub open spec fn wf(self) -> bool
        decreases self,
    {
        self.node.wf()
    }
}

impl SpecNode {
    /// Structural invariant of a node and all of its descendants.
    pub open spec fn wf(self) -> bool
        decreases self,
        via Self::wf_decreases
    {
        match self {
            SpecNode::Object(es) => unique_keys(es) && wf_entry_list(es),
            SpecNode::Enum { variants, selected } => {
                &&& match selected {
                    Some(i) => 0 <= i < variants.len(),
                    None => true,
                }
                &&& wf_container_list(variants)
            },
            SpecNode::Array(vs) => match vs {
                Some(cs) => wf_container_list(cs),
                None => true,
            },
            _ => true,
        }
    }

    #[via_fn]
    proof fn wf_decreases(self) {
        match self {
            SpecNode::Array(vs) => {
                match vs {
                    Some(cs) => {
                        assert(decreases_to!(self => self->Array_0));
                        assert(decreases_to!(self->Array_0 => self->Array_0->0));
                    },
                    None => {},
                }
            },
            _ => {},
        }
    }
}

/// No entry's subtree holds a modified container.
pub open spec fn unmarked_entry_list(es: Seq<(Seq<char>, SpecContainer)>) -> bool
    decreases es,
{
    if es.len() == 0 {
        true
    } else {
        unmarked_entry_list(es.drop_last()) && es.last().1.all_unmarked()
    }
}

/// No container in the sequence holds a modified container.
pub open spec fn unmarked_container_list(cs: Seq<SpecContainer>) -> bool
    decreases cs,
{
    if cs.len() == 0 {
        true
    } else {
        unmarked_container_list(cs.drop_last()) && cs.last().all_unmarked()
    }
}

impl SpecContainer {
    /// Nothing in this subtree is marked modified: the state of a tree
    /// freshly built from a schema, before any edit.
    pub open spec fn all_unmarked(self) -> bool
        decreases self,
    {
        !self.modified && self.node.unmarked()
    }
}

impl SpecNode {
    /// No descendant container is marked modified.
    pub open spec fn unmarked(self) -> bool
        decreases self,
        via Self::unmarked_decreases
    {
        match self {
            SpecNode::Object(es) => unmarked_entry_list(es),
            SpecNode::Enum { variants, .. } => unmarked_container_list(variants),
            SpecNode::Array(vs) => match vs {
                Some(cs) => unmarked_container_list(cs),
                None => true,
            },
            _ => true,
        }
    }

    #[via_fn]
    proof fn unmarked_decreases(self) {
        match self {
            SpecNode::Array(vs) => {
                match vs {
                    Some(cs) => {
                        assert(decreases_to!(self => self->Array_0));
                        assert(decreases_to!(self->Array_0 => self->Array_0->0));
                    },
                    None => {},
                }
            },
            _ => {},
        }
    }
}

/// An entry list is unmarked exactly when each entry's subtree is.
pub proof fn lemma_unmarked_entry_list(es: Seq<(Seq<char>, SpecContainer)>)
    ensures
        unmarked_entry_list(es) <==> (forall|i: int|
            0 <= i < es.len() ==> (#[trigger] es[i].1).all_unmarked()),
    decreases es,
{
    if es.len() > 0 {
        lemma_unmarked_entry_list(es.drop_last());
        assert forall|i: int| 0 <= i < es.len() - 1 implies es.drop_last()[i] == es[i] by {}
        if unmarked_entry_list(es) {
            assert forall|i: int| 0 <= i < es.len() implies (#[trigger] es[i].1).all_unmarked() by {
                if i < es.len() - 1 {
                    assert(es.drop_last()[i] == es[i]);
                } else {
                    assert(es[i] == es.last());
                }
            }
        }
    }
}

/// An entry list is well-formed exactly when each entry's subtree is.
pub proof fn lemma_wf_entry_list(es: Seq<(Seq<char>, SpecContainer)>)
    ensures
        wf_entry_list(es) <==> (forall|i: int| 0 <= i < es.len() ==> (#[trigger] es[i].1).wf()),
    decreases es,
{
    if es.len() > 0 {
        lemma_wf_entry_list(es.drop_last());
        assert forall|i: int| 0 <= i < es.len() - 1 implies es.drop_last()[i] == es[i] by {}
        if wf_entry_list(es) {
            assert forall|i: int| 0 <= i < es.len() implies (#[trigger] es[i].1).wf() by {
                if i < es.len() - 1 {
                    assert(es.drop_last()[i] == es[i]);
                } else {
                    assert(es[i] == es.last());
                }
            }
        }
    }
}

/// A container list is well-formed exactly when each container is.
pub proof fn lemma_wf_container_list(cs: Seq<SpecContainer>)
    ensures
        wf_container_list(cs) <==> (forall|i: int| 0 <= i < cs.len() ==> (#[trigger] cs[i]).wf()),
    decreases cs,
{
    if cs.len() > 0 {
        lemma_wf_container_list(cs.drop_last());
        if wf_container_list(cs) {
            assert forall|i: int| 0 <= i < cs.len() implies (#[trigger] cs[i]).wf() by {
                if i < cs.len() - 1 {
                    assert(cs.drop_last()[i] == cs[i]);
                } else {
                    assert(cs[i] == cs.last());
                }
            }
        }
    }
}

} // verus!
