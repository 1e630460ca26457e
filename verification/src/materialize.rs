//! Overlay materialization: converting a (sub)tree into the minimal generic
//! value holding only explicitly modified entries.

use vstd::prelude::*;

use crate::node::{
    lemma_view_container_list, lemma_view_entry_list, view_container_list, view_entry_list, Node,
    NodeContainer, SpecContainer, SpecNode,
};
use crate::value::{ConfigValue, SpecValue};

verus! {

/// Why materialization failed.
#[derive(Clone, Copy, PartialEq, Eq, Structural, Debug)]
pub enum MaterializeError {
    /// The subtree holds a node with no defined schema (`Any`).
    Unsupported,
}

/// What materializing a container yields. An unmodified container yields
/// nothing at all: that is the pruning rule that keeps the overlay minimal.
pub open spec fn materialize_spec(c: SpecContainer) -> Result<Option<SpecValue>, MaterializeError>
    decreases c,
{
    if !c.modified {
        Ok(None)
    } else {
        materialize_node(c.node)
    }
}

/// What materializing a modified container's node yields. A touched but
/// still empty scalar contributes nothing; an object always yields a map of
/// its contributing children; an enum delegates to the selected variant,
/// without recording which variant that was; an array keeps its length,
/// standing in a null for each non-contributing element.
pub open spec fn materialize_node(n: SpecNode) -> Result<Option<SpecValue>, MaterializeError>
    decreases n,
    via materialize_node_decreases
{
    match n {
        SpecNode::Null => Ok(Some(SpecValue::Null)),
        SpecNode::Bool(v) => Ok(
            match v {
                Some(b) => Some(SpecValue::Bool(b)),
                None => None,
            },
        ),
        SpecNode::Str(v) => Ok(
            match v {
                Some(t) => Some(SpecValue::Text(t)),
                None => None,
            },
        ),
        SpecNode::Number(num) => Ok(
            match num.value {
                Some(nv) => Some(SpecValue::Num(nv)),
                None => None,
            },
        ),
        SpecNode::Object(es) => match materialize_entries(es) {
            Ok(ps) => Ok(Some(SpecValue::Dict(ps))),
            Err(e) => Err(e),
        },
        SpecNode::Enum { variants, selected } => match selected {
            Some(i) => if 0 <= i < variants.len() {
                materialize_spec(variants[i])
            } else {
                Ok(None)
            },
            None => Ok(None),
        },
        SpecNode::Array(vs) => match vs {
            Some(cs) => match materialize_elements(cs) {
                Ok(xs) => Ok(Some(SpecValue::List(xs))),
                Err(e) => Err(e),
            },
            None => Ok(None),
        },
        SpecNode::Value(v) => Ok(Some(v)),
        SpecNode::Any => Err(MaterializeError::Unsupported),
    }
}

#[via_fn]
proof fn materialize_node_decreases(n: SpecNode) {
    match n {
        SpecNode::Enum { variants, selected } => {
            match selected {
                Some(i) => if 0 <= i < variants.len() {
                    assert(decreases_to!(n => n->Enum_variants));
                    assert(decreases_to!(n->Enum_variants => variants[i]));
                } else {
                },
                None => {},
            }
        },
        SpecNode::Array(vs) => {
            match vs {
                Some(cs) => {
                    assert(decreases_to!(n => n->Array_0));
                    assert(decreases_to!(n->Array_0 => n->Array_0->0));
                },
                None => {},
            }
        },
        _ => {},
    }
}

/// The map an object's entries materialize to: each contributing child in
/// order under its name, children that yield nothing left out, the first
/// failure propagated.
pub open spec fn materialize_entries(es: Seq<(Seq<char>, SpecContainer)>) -> Result<
    Seq<(Seq<char>, SpecValue)>,
    MaterializeError,
>
    decreases es,
{
    if es.len() == 0 {
        Ok(Seq::empty())
    } else {
        match materialize_entries(es.drop_last()) {
            Ok(ps) => match materialize_spec(es.last().1) {
                Ok(Some(v)) => Ok(ps.push((es.last().0, v))),
                Ok(None) => Ok(ps),
                Err(e) => Err(e),
            },
            Err(e) => Err(e),
        }
    }
}

/// The sequence an array's elements materialize to: one value per element in
/// order, a null standing in for each element that yields nothing, the first
/// failure propagated.
pub open spec fn materialize_elements(cs: Seq<SpecContainer>) -> Result<
    Seq<SpecValue>,
    MaterializeError,
>
    decreases cs,
{
    if cs.len() == 0 {
        Ok(Seq::empty())
    } else {
        match materialize_elements(cs.drop_last()) {
            Ok(xs) => match materialize_spec(cs.last()) {
                Ok(Some(v)) => Ok(xs.push(v)),
                Ok(None) => Ok(xs.push(SpecValue::Null)),
                Err(e) => Err(e),
            },
            Err(e) => Err(e),
        }
    }
}

/// Materializing an array's elements keeps the array's length.
pub proof fn lemma_materialize_elements_len(cs: Seq<SpecContainer>)
    ensures
        materialize_elements(cs) matches Ok(xs) ==> xs.len() == cs.len(),
    decreases cs,
{
    if cs.len() > 0 {
        lemma_materialize_elements_len(cs.drop_last());
    }
}

/// A failing prefix fails the whole entry list.
proof fn lemma_materialize_entries_err(es: Seq<(Seq<char>, SpecContainer)>, i: int)
    requires
        0 <= i <= es.len(),
        materialize_entries(es.take(i)) is Err,
    ensures
        materialize_entries(es) is Err,
    decreases es.len() - i,
{
    if i == es.len() {
        assert(es.take(i) =~= es);
    } else {
        assert(es.take(i + 1).drop_last() =~= es.take(i));
        lemma_materialize_entries_err(es, i + 1);
    }
}

/// A failing prefix fails the whole element list.
proof fn lemma_materialize_elements_err(cs: Seq<SpecContainer>, i: int)
    requires
        0 <= i <= cs.len(),
        materialize_elements(cs.take(i)) is Err,
    ensures
        materialize_elements(cs) is Err,
    decreases cs.len() - i,
{
    if i == cs.len() {
        assert(cs.take(i) =~= cs);
    } else {
        assert(cs.take(i + 1).drop_last() =~= cs.take(i));
        lemma_materialize_elements_err(cs, i + 1);
    }
}

impl NodeContainer {
    /// Materialize this (sub)tree into the minimal overlay value: nothing
    /// whenever this container is unmodified, otherwise exactly what
    /// `materialize_spec` states. Fails only when a node with no defined
    /// schema stands in the modified part of the subtree.
    #[verifier::loop_isolation(false)]
    pub fn to_value(&self) -> (r: Result<Option<ConfigValue>, MaterializeError>)
        ensures
            match r {
                Ok(Some(v)) => materialize_spec(self@) == Ok::<
                    Option<SpecValue>,
                    MaterializeError,
                >(Some(v@)),
                Ok(None) => materialize_spec(self@) == Ok::<Option<SpecValue>, MaterializeError>(
                    None,
                ),
                Err(e) => materialize_spec(self@) == Err::<Option<SpecValue>, MaterializeError>(e),
            },
        decreases self,
    {
        if !self.modified {
            return Ok(None);
        }
        proof {
            assert(decreases_to!(*self => self.node));
        }
        match &self.node {
            Node::Null => Ok(Some(ConfigValue::Null)),
            Node::Bool(v) => match v {
                Some(b) => Ok(Some(ConfigValue::Bool(*b))),
                None => Ok(None),
            },
            Node::Str(v) => match v {
                Some(t) => Ok(Some(ConfigValue::Text(t.clone()))),
                None => Ok(None),
            },
            Node::Number(num) => match &num.value {
                Some(nv) => Ok(Some(ConfigValue::Num(nv.dup()))),
                None => Ok(None),
            },
            Node::Object(es) => {
                let ghost spec_es = view_entry_list(es@);
                proof {
                    lemma_view_entry_list(es@);
                }
                let mut out: Vec<(String, ConfigValue)> = Vec::new();
                let mut i: usize = 0;
                while i < es.len()
                    invariant
                        i <= es.len(),
                        materialize_entries(spec_es.take(i as int)) == Ok::<
                            Seq<(Seq<char>, SpecValue)>,
                            MaterializeError,
                        >(crate::value::view_value_dict(out@)),
                    decreases es@.len() - i,
                {
                    proof {
                        assert(decreases_to!(self.node => self.node->Object_0));
                        assert(decreases_to!(self.node->Object_0 => es@));
                        assert(decreases_to!(es@ => es@[i as int]));
                        assert(decreases_to!(es@[i as int] => es@[i as int].1));
                        assert(spec_es.take(i as int + 1).drop_last() =~= spec_es.take(i as int));
                        assert(spec_es.take(i as int + 1).last() == spec_es[i as int]);
                        assert(spec_es[i as int] == (es@[i as int].0@, es@[i as int].1.model()));
                    }
                    let pair = &es[i];
                    match pair.1.to_value() {
                        Ok(Some(v)) => {
                            let ghost out0 = out@;
                            out.push((pair.0.clone(), v));
                            proof {
                                assert(out@.drop_last() =~= out0);
                                assert(out@.last().0@ == es@[i as int].0@);
                                crate::value::lemma_view_value_dict(out@);
                                crate::value::lemma_view_value_dict(out0);
                                assert(crate::value::view_value_dict(out@) =~=
                                    crate::value::view_value_dict(out0).push(
                                    (spec_es[i as int].0, v@),
                                ));
                            }
                        },
                        Ok(None) => {},
                        Err(e) => {
                            proof {
                                assert(materialize_entries(spec_es.take(i as int + 1)) is Err);
                                lemma_materialize_entries_err(spec_es, i as int + 1);
                            }
                            return Err(e);
                        },
                    }
                    i = i + 1;
                }
                proof {
                    assert(spec_es.take(i as int) =~= spec_es);
                }
                Ok(Some(ConfigValue::Dict(out)))
            },
            Node::Enum(e) => {
                proof {
                    lemma_view_container_list(e.variants@);
                }
                match &e.selected {
                    Some(ix) => {
                        if *ix < e.variants.len() {
                            proof {
                                assert(decreases_to!(self.node => self.node->Enum_0));
                                assert(decreases_to!(self.node->Enum_0 =>
                                    self.node->Enum_0.variants));
                                assert(decreases_to!(self.node->Enum_0.variants => e.variants@));
                                assert(decreases_to!(e.variants@ => e.variants@[*ix as int]));
                            }
                            e.variants[*ix].to_value()
                        } else {
                            Ok(None)
                        }
                    },
                    None => Ok(None),
                }
            },
            Node::Array(vs) => match vs {
                Some(cs) => {
                    let ghost spec_cs = view_container_list(cs@);
                    proof {
                        lemma_view_container_list(cs@);
                    }
                    let mut out: Vec<ConfigValue> = Vec::new();
                    let mut i: usize = 0;
                    while i < cs.len()
                        invariant
                            i <= cs.len(),
                            materialize_elements(spec_cs.take(i as int)) == Ok::<
                                Seq<SpecValue>,
                                MaterializeError,
                            >(crate::value::view_value_list(out@)),
                        decreases cs@.len() - i,
                    {
                        proof {
                            assert(decreases_to!(self.node => self.node->Array_0));
                            assert(decreases_to!(self.node->Array_0 => self.node->Array_0->0));
                            assert(decreases_to!(self.node->Array_0->0 => cs@));
                            assert(decreases_to!(cs@ => cs@[i as int]));
                            assert(spec_cs.take(i as int + 1).drop_last() =~= spec_cs.take(
                                i as int,
                            ));
                            assert(spec_cs.take(i as int + 1).last() == spec_cs[i as int]);
                            assert(spec_cs[i as int] == cs@[i as int].model());
                        }
                        let ghost out0 = out@;
                        match cs[i].to_value() {
                            Ok(Some(v)) => {
                                out.push(v);
                            },
                            Ok(None) => {
                                out.push(ConfigValue::Null);
                            },
                            Err(e) => {
                                proof {
                                    assert(materialize_elements(
                                        spec_cs.take(i as int + 1),
                                    ) is Err);
                                    lemma_materialize_elements_err(spec_cs, i as int + 1);
                                }
                                return Err(e);
                            },
                        }
                        proof {
                            assert(out@.drop_last() =~= out0);
                            crate::value::lemma_view_value_list(out@);
                            crate::value::lemma_view_value_list(out0);
                            assert(crate::value::view_value_list(out@) =~=
                                crate::value::view_value_list(out0).push(out@.last()@));
                        }
                        i = i + 1;
                    }
                    proof {
                        assert(spec_cs.take(i as int) =~= spec_cs);
                    }
                    Ok(Some(ConfigValue::List(out)))
                },
                None => Ok(None),
            },
            Node::Value(v) => Ok(Some(v.clone())),
            Node::Any => Err(MaterializeError::Unsupported),
        }
    }
}

} // verus!
