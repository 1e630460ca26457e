//! Tree construction: building a fresh, unmodified tree from a schema
//! description.

use vstd::prelude::*;

use crate::node::{
    lemma_view_container_list, lemma_view_entry_list, view_container_list, view_entry_list, Node,
    NodeContainer, NodeEnum, NodeNumber, SpecContainer, SpecNode, SpecNumber,
};
use crate::path::{view_path, PathComponent, SpecPathComponent};
use crate::value::{ConfigValue, NumberKind, SpecValue};

verus! {

/// What a schema declares a node to be. An unrecognized or malformed type
/// tag is represented explicitly, so that building fails loudly rather than
/// silently defaulting.
#[derive(Debug, PartialEq, Eq)]
pub enum SchemaKind {
    Null,
    Bool,
    Str,
    Integer,
    Float,
    /// Named child schemas, in declared order.
    Object(Vec<(String, Schema)>),
    /// The schema every element of the array must satisfy.
    Array(Box<Schema>),
    /// The variant schemas of an enumeration, in declared order.
    OneOf(Vec<Schema>),
    /// A type tag this library does not support.
    Unsupported,
}

/// A schema description: a type, an optional default, an optional
/// description, and for composites the child schemas.
#[derive(Debug, PartialEq, Eq)]
pub struct Schema {
    pub kind: SchemaKind,
    pub default: Option<ConfigValue>,
    pub description: Option<String>,
}

/// Why building failed. The path names the schema node that could not be
/// handled: field names for object children, the variant's position for an
/// enumeration, position zero for an array's element schema.
#[derive(Debug, PartialEq, Eq)]
pub enum SchemaError {
    UnsupportedType(Vec<PathComponent>),
}

/// Mathematical model of a `SchemaKind`.
pub enum SpecSchemaKind {
    Null,
    Bool,
    Str,
    Integer,
    Float,
    Object(Seq<(Seq<char>, SpecSchema)>),
    Array(Box<SpecSchema>),
    OneOf(Seq<SpecSchema>),
    Unsupported,
}

/// Mathematical model of a `Schema`.
pub struct SpecSchema {
    pub kind: SpecSchemaKind,
    pub default: Option<SpecValue>,
    pub description: Option<Seq<char>>,
}

/// Models of an object's child schemas, in order.
pub open spec fn view_schema_entries(ps: Seq<(String, Schema)>) -> Seq<(Seq<char>, SpecSchema)>
    decreases ps,
{
    if ps.len() == 0 {
        Seq::empty()
    } else {
        view_schema_entries(ps.drop_last()).push((ps.last().0@, ps.last().1.model()))
    }
}

/// Models of an enumeration's variant schemas, in order.
pub open spec fn view_schema_list(ss: Seq<Schema>) -> Seq<SpecSchema>
    decreases ss,
{
    if ss.len() == 0 {
        Seq::empty()
    } else {
        view_schema_list(ss.drop_last()).push(ss.last().model())
    }
}

impl Schema {
    /// Mathematical value of this schema, children included.
    pub open spec fn model(&self) -> SpecSchema
        decreases self,
        via Self::model_decreases
    {
        SpecSchema {
            kind: match &self.kind {
                SchemaKind::Null => SpecSchemaKind::Null,
                SchemaKind::Bool => SpecSchemaKind::Bool,
                SchemaKind::Str => SpecSchemaKind::Str,
                SchemaKind::Integer => SpecSchemaKind::Integer,
                SchemaKind::Float => SpecSchemaKind::Float,
                SchemaKind::Object(ps) => SpecSchemaKind::Object(view_schema_entries(ps@)),
                SchemaKind::Array(items) => SpecSchemaKind::Array(Box::new((*items).model())),
                SchemaKind::OneOf(vs) => SpecSchemaKind::OneOf(view_schema_list(vs@)),
                SchemaKind::Unsupported => SpecSchemaKind::Unsupported,
            },
            default: match &self.default {
                Some(v) => Some(v@),
                None => None,
            },
            description: match &self.description {
                Some(d) => Some(d@),
                None => None,
            },
        }
    }

    #[via_fn]
    proof fn model_decreases(&self) {
        match &self.kind {
            SchemaKind::Object(ps) => {
                assert(decreases_to!(*self => self.kind));
                assert(decreases_to!(self.kind => self.kind->Object_0));
                assert(decreases_to!(self.kind->Object_0 => ps@));
            },
            SchemaKind::Array(items) => {
                assert(decreases_to!(*self => self.kind));
                assert(decreases_to!(self.kind => self.kind->Array_0));
            },
            SchemaKind::OneOf(vs) => {
                assert(decreases_to!(*self => self.kind));
                assert(decreases_to!(self.kind => self.kind->OneOf_0));
                assert(decreases_to!(self.kind->OneOf_0 => vs@));
            },
            _ => {},
        }
    }
}

impl View for Schema {
    type V = SpecSchema;

    open spec fn view(&self) -> SpecSchema {
        self.model()
    }
}

/// The container a schema builds to, or the path of the schema node that
/// could not be handled. A built tree is entirely unmodified; an
/// enumeration starts with nothing selected; an array starts unset, its
/// element schema checked.
pub open spec fn build_spec(s: SpecSchema) -> Result<SpecContainer, Seq<SpecPathComponent>>
    decreases s,
    via build_spec_decreases
{
    match s.kind {
        SpecSchemaKind::Null => Ok(built_container(s, SpecNode::Null)),
        SpecSchemaKind::Bool => Ok(built_container(s, SpecNode::Bool(None))),
        SpecSchemaKind::Str => Ok(built_container(s, SpecNode::Str(None))),
        SpecSchemaKind::Integer => Ok(
            built_container(
                s,
                SpecNode::Number(
                    SpecNumber { kind: NumberKind::Integer, value: None, raw_text: Seq::empty() },
                ),
            ),
        ),
        SpecSchemaKind::Float => Ok(
            built_container(
                s,
                SpecNode::Number(
                    SpecNumber { kind: NumberKind::Float, value: None, raw_text: Seq::empty() },
                ),
            ),
        ),
        SpecSchemaKind::Object(ps) => match build_entries_spec(ps) {
            Ok(es) => Ok(built_container(s, SpecNode::Object(es))),
            Err(p) => Err(p),
        },
        SpecSchemaKind::Array(items) => match build_spec(*items) {
            Ok(_) => Ok(built_container(s, SpecNode::Array(None))),
            Err(p) => Err(seq![SpecPathComponent::Index(0)] + p),
        },
        SpecSchemaKind::OneOf(vs) => match build_variants_spec(vs) {
            Ok(cs) => Ok(
                built_container(s, SpecNode::Enum { variants: cs, selected: None }),
            ),
            Err(p) => Err(p),
        },
        SpecSchemaKind::Unsupported => Err(Seq::empty()),
    }
}

#[via_fn]
proof fn build_spec_decreases(s: SpecSchema) {
    match s.kind {
        SpecSchemaKind::Object(ps) => {
            assert(decreases_to!(s => s.kind));
            assert(decreases_to!(s.kind => s.kind->Object_0));
        },
        SpecSchemaKind::Array(items) => {
            assert(decreases_to!(s => s.kind));
            assert(decreases_to!(s.kind => s.kind->Array_0));
        },
        SpecSchemaKind::OneOf(vs) => {
            assert(decreases_to!(s => s.kind));
            assert(decreases_to!(s.kind => s.kind->OneOf_0));
        },
        _ => {},
    }
}

/// The metadata every built container carries: unmodified, with the
/// schema's default and description.
pub open spec fn built_container(s: SpecSchema, n: SpecNode) -> SpecContainer {
    SpecContainer { node: n, modified: false, description: s.description, default: s.default }
}

/// Build each named child schema, in order; the first failure is reported
/// under the failing child's name.
pub open spec fn build_entries_spec(ps: Seq<(Seq<char>, SpecSchema)>) -> Result<
    Seq<(Seq<char>, SpecContainer)>,
    Seq<SpecPathComponent>,
>
    decreases ps,
{
    if ps.len() == 0 {
        Ok(Seq::empty())
    } else {
        match build_entries_spec(ps.drop_last()) {
            Ok(es) => match build_spec(ps.last().1) {
                Ok(c) => Ok(es.push((ps.last().0, c))),
                Err(p) => Err(seq![SpecPathComponent::Name(ps.last().0)] + p),
            },
            Err(p) => Err(p),
        }
    }
}

/// Build each variant schema, in order; the first failure is reported under
/// the failing variant's position.
pub open spec fn build_variants_spec(ss: Seq<SpecSchema>) -> Result<
    Seq<SpecContainer>,
    Seq<SpecPathComponent>,
>
    decreases ss,
{
    if ss.len() == 0 {
        Ok(Seq::empty())
    } else {
        match build_variants_spec(ss.drop_last()) {
            Ok(cs) => match build_spec(ss.last()) {
                Ok(c) => Ok(cs.push(c)),
                Err(p) => Err(seq![SpecPathComponent::Index(ss.len() - 1)] + p),
            },
            Err(p) => Err(p),
        }
    }
}

/// The names of an object's child schemas are pairwise distinct.
pub open spec fn schema_keys_unique(ps: Seq<(Seq<char>, SpecSchema)>) -> bool {
    forall|i: int, j: int| 0 <= i < j < ps.len() ==> ps[i].0 != ps[j].0
}

/// Every child schema in the entry list is well-formed.
pub open spec fn wf_schema_entries(ps: Seq<(Seq<char>, SpecSchema)>) -> bool
    decreases ps,
{
    if ps.len() == 0 {
        true
    } else {
        wf_schema_entries(ps.drop_last()) && ps.last().1.wf()
    }
}

/// Every schema in the list is well-formed.
pub open spec fn wf_schema_list(ss: Seq<SpecSchema>) -> bool
    decreases ss,
{
    if ss.len() == 0 {
        true
    } else {
        wf_schema_list(ss.drop_last()) && ss.last().wf()
    }
}

impl SpecSchema {
    /// A schema is well-formed when every object in it names its children
    /// uniquely. Building such a schema yields a well-formed tree.
    pub open spec fn wf(self) -> bool
        decreases self,
        via Self::wf_decreases
    {
        match self.kind {
            SpecSchemaKind::Object(ps) => schema_keys_unique(ps) && wf_schema_entries(ps),
            SpecSchemaKind::Array(items) => (*items).wf(),
            SpecSchemaKind::OneOf(vs) => wf_schema_list(vs),
            _ => true,
        }
    }

    #[via_fn]
    proof fn wf_decreases(self) {
        match self.kind {
            SpecSchemaKind::Object(ps) => {
                assert(decreases_to!(self => self.kind));
                assert(decreases_to!(self.kind => self.kind->Object_0));
            },
            SpecSchemaKind::Array(items) => {
                assert(decreases_to!(self => self.kind));
                assert(decreases_to!(self.kind => self.kind->Array_0));
            },
            SpecSchemaKind::OneOf(vs) => {
                assert(decreases_to!(self => self.kind));
                assert(decreases_to!(self.kind => self.kind->OneOf_0));
            },
            _ => {},
        }
    }
}

/// Well-formedness of an entry list, elementwise.
pub proof fn lemma_wf_schema_entries(ps: Seq<(Seq<char>, SpecSchema)>)
    ensures
        wf_schema_entries(ps) <==> (forall|i: int|
            0 <= i < ps.len() ==> (#[trigger] ps[i].1).wf()),
    decreases ps,
{
    if ps.len() > 0 {
        lemma_wf_schema_entries(ps.drop_last());
        assert forall|i: int| 0 <= i < ps.len() - 1 implies ps.drop_last()[i] == ps[i] by {}
        if wf_schema_entries(ps) {
            assert forall|i: int| 0 <= i < ps.len() implies (#[trigger] ps[i].1).wf() by {
                if i < ps.len() - 1 {
                    assert(ps.drop_last()[i] == ps[i]);
                } else {
                    assert(ps[i] == ps.last());
                }
            }
        }
    }
}

/// Well-formedness of a schema list, elementwise.
pub proof fn lemma_wf_schema_list(ss: Seq<SpecSchema>)
    ensures
        wf_schema_list(ss) <==> (forall|i: int| 0 <= i < ss.len() ==> (#[trigger] ss[i]).wf()),
    decreases ss,
{
    if ss.len() > 0 {
        lemma_wf_schema_list(ss.drop_last());
        if wf_schema_list(ss) {
            assert forall|i: int| 0 <= i < ss.len() implies (#[trigger] ss[i]).wf() by {
                if i < ss.len() - 1 {
                    assert(ss.drop_last()[i] == ss[i]);
                } else {
                    assert(ss[i] == ss.last());
                }
            }
        }
    }
}

/// What building an entry list yields, elementwise: each name kept, each
/// child built from its schema.
proof fn lemma_build_entries_ok(ps: Seq<(Seq<char>, SpecSchema)>)
    requires
        build_entries_spec(ps) is Ok,
    ensures
        build_entries_spec(ps)->Ok_0.len() == ps.len(),
        forall|i: int| 0 <= i < ps.len() ==> build_entries_spec(ps)->Ok_0[i].0 == (
            #[trigger] ps[i].0
        ) && build_spec(ps[i].1) == Ok::<SpecContainer, Seq<SpecPathComponent>>(
            build_entries_spec(ps)->Ok_0[i].1,
        ),
    decreases ps,
{
    if ps.len() > 0 {
        lemma_build_entries_ok(ps.drop_last());
        assert forall|i: int| 0 <= i < ps.len()
            implies build_entries_spec(ps)->Ok_0[i].0 == (#[trigger] ps[i].0) && build_spec(
            ps[i].1,
        ) == Ok::<SpecContainer, Seq<SpecPathComponent>>(build_entries_spec(ps)->Ok_0[i].1) by {
            if i < ps.len() - 1 {
                assert(ps.drop_last()[i] == ps[i]);
            } else {
                assert(ps[i] == ps.last());
            }
        }
    }
}

/// What building a variant list yields, elementwise.
proof fn lemma_build_variants_ok(ss: Seq<SpecSchema>)
    requires
        build_variants_spec(ss) is Ok,
    ensures
        build_variants_spec(ss)->Ok_0.len() == ss.len(),
        forall|i: int| 0 <= i < ss.len() ==> build_spec(#[trigger] ss[i]) == Ok::<
            SpecContainer,
            Seq<SpecPathComponent>,
        >(build_variants_spec(ss)->Ok_0[i]),
    decreases ss,
{
    if ss.len() > 0 {
        lemma_build_variants_ok(ss.drop_last());
        assert forall|i: int| 0 <= i < ss.len()
            implies build_spec(#[trigger] ss[i]) == Ok::<
            SpecContainer,
            Seq<SpecPathComponent>,
        >(build_variants_spec(ss)->Ok_0[i]) by {
            if i < ss.len() - 1 {
                assert(ss.drop_last()[i] == ss[i]);
            } else {
                assert(ss[i] == ss.last());
            }
        }
    }
}

/// Building a well-formed schema yields a well-formed tree: object names
/// stay unique and no enumeration starts with anything selected.
pub proof fn lemma_build_wf(s: SpecSchema)
    requires
        s.wf(),
        build_spec(s) is Ok,
    ensures
        build_spec(s)->Ok_0.wf(),
    decreases s,
{
    match s.kind {
        SpecSchemaKind::Object(ps) => {
            let es = build_entries_spec(ps)->Ok_0;
            lemma_build_entries_ok(ps);
            lemma_wf_schema_entries(ps);
            assert(crate::node::unique_keys(es)) by {
                assert forall|i: int, j: int| 0 <= i < j < es.len()
                    implies es[i].0 != es[j].0 by {
                    assert(es[i].0 == ps[i].0);
                    assert(es[j].0 == ps[j].0);
                }
            }
            assert forall|i: int| 0 <= i < es.len() implies (#[trigger] es[i].1).wf() by {
                assert(decreases_to!(s => s.kind));
                assert(decreases_to!(s.kind => s.kind->Object_0));
                assert(decreases_to!(s.kind->Object_0 => ps[i]));
                assert(decreases_to!(ps[i] => ps[i].1));
                lemma_build_wf(ps[i].1);
            }
            crate::node::lemma_wf_entry_list(es);
        },
        SpecSchemaKind::OneOf(vs) => {
            let cs = build_variants_spec(vs)->Ok_0;
            lemma_build_variants_ok(vs);
            lemma_wf_schema_list(vs);
            assert forall|i: int| 0 <= i < cs.len() implies (#[trigger] cs[i]).wf() by {
                assert(decreases_to!(s => s.kind));
                assert(decreases_to!(s.kind => s.kind->OneOf_0));
                assert(decreases_to!(s.kind->OneOf_0 => vs[i]));
                lemma_build_wf(vs[i]);
            }
            crate::node::lemma_wf_container_list(cs);
        },
        _ => {},
    }
}

/// A built tree is unmodified at its root, so it materializes to nothing.
pub proof fn lemma_built_tree_materializes_none(s: SpecSchema)
    ensures
        build_spec(s) matches Ok(c) ==> crate::materialize::materialize_spec(c)
            == Ok::<Option<SpecValue>, crate::materialize::MaterializeError>(None),
{
}

/// A failing prefix fails the whole entry list, with the same report.
proof fn lemma_build_entries_err(ps: Seq<(Seq<char>, SpecSchema)>, i: int)
    requires
        0 <= i <= ps.len(),
        build_entries_spec(ps.take(i)) is Err,
    ensures
        build_entries_spec(ps) == build_entries_spec(ps.take(i)),
    decreases ps.len() - i,
{
    if i == ps.len() {
        assert(ps.take(i) =~= ps);
    } else {
        assert(ps.take(i + 1).drop_last() =~= ps.take(i));
        lemma_build_entries_err(ps, i + 1);
    }
}

/// A failing prefix fails the whole variant list, with the same report.
proof fn lemma_build_variants_err(ss: Seq<SpecSchema>, i: int)
    requires
        0 <= i <= ss.len(),
        build_variants_spec(ss.take(i)) is Err,
    ensures
        build_variants_spec(ss) == build_variants_spec(ss.take(i)),
    decreases ss.len() - i,
{
    if i == ss.len() {
        assert(ss.take(i) =~= ss);
    } else {
        assert(ss.take(i + 1).drop_last() =~= ss.take(i));
        lemma_build_variants_err(ss, i + 1);
    }
}

/// The models of the child schemas, elementwise.
proof fn lemma_view_schema_entries(ps: Seq<(String, Schema)>)
    ensures
        view_schema_entries(ps).len() == ps.len(),
        forall|i: int| 0 <= i < ps.len()
            ==> view_schema_entries(ps)[i] == (#[trigger] ps[i].0@, ps[i].1.model()),
    decreases ps,
{
    if ps.len() > 0 {
        lemma_view_schema_entries(ps.drop_last());
        assert forall|i: int| 0 <= i < ps.len()
            implies view_schema_entries(ps)[i] == (#[trigger] ps[i].0@, ps[i].1.model()) by {
            if i < ps.len() - 1 {
                assert(ps.drop_last()[i] == ps[i]);
            } else {
                assert(ps[i] == ps.last());
            }
        }
    }
}

/// The models of the variant schemas, elementwise.
proof fn lemma_view_schema_list(ss: Seq<Schema>)
    ensures
        view_schema_list(ss).len() == ss.len(),
        forall|i: int| 0 <= i < ss.len() ==> view_schema_list(ss)[i] == #[trigger] ss[i].model(),
    decreases ss,
{
    if ss.len() > 0 {
        lemma_view_schema_list(ss.drop_last());
        assert forall|i: int| 0 <= i < ss.len()
            implies view_schema_list(ss)[i] == #[trigger] ss[i].model() by {
            if i < ss.len() - 1 {
                assert(ss.drop_last()[i] == ss[i]);
            } else {
                assert(ss[i] == ss.last());
            }
        }
    }
}

/// Build the tree a schema describes: the node kind the schema declares,
/// nothing modified, defaults and descriptions carried over, children built
/// recursively. An unsupported type tag anywhere fails with the path to it.
#[verifier::loop_isolation(false)]
pub fn build_tree(schema: &Schema) -> (r: Result<NodeContainer, SchemaError>)
    ensures
        match r {
            Ok(c) => build_spec(schema@) == Ok::<SpecContainer, Seq<SpecPathComponent>>(c@),
            Err(SchemaError::UnsupportedType(p)) => build_spec(schema@) == Err::<
                SpecContainer,
                Seq<SpecPathComponent>,
            >(view_path(p@)),
        },
        schema@.wf() && r is Ok ==> build_spec(schema@)->Ok_0.wf(),
    decreases schema,
{
    proof {
        if schema@.wf() && build_spec(schema@) is Ok {
            lemma_build_wf(schema@);
        }
    }
    let node: Node = match &schema.kind {
        SchemaKind::Null => Node::Null,
        SchemaKind::Bool => Node::Bool(None),
        SchemaKind::Str => Node::Str(None),
        SchemaKind::Integer => Node::Number(
            NodeNumber { kind: NumberKind::Integer, value: None, raw_text: String::new() },
        ),
        SchemaKind::Float => Node::Number(
            NodeNumber { kind: NumberKind::Float, value: None, raw_text: String::new() },
        ),
        SchemaKind::Object(ps) => {
            let ghost spec_ps = view_schema_entries(ps@);
            proof {
                lemma_view_schema_entries(ps@);
            }
            let mut out: Vec<(String, NodeContainer)> = Vec::new();
            let mut i: usize = 0;
            while i < ps.len()
                invariant
                    i <= ps.len(),
                    build_entries_spec(spec_ps.take(i as int)) == Ok::<
                        Seq<(Seq<char>, SpecContainer)>,
                        Seq<SpecPathComponent>,
                    >(view_entry_list(out@)),
                decreases ps@.len() - i,
            {
                proof {
                    assert(decreases_to!(*schema => schema.kind));
                    assert(decreases_to!(schema.kind => schema.kind->Object_0));
                    assert(decreases_to!(schema.kind->Object_0 => ps@));
                    assert(decreases_to!(ps@ => ps@[i as int]));
                    assert(decreases_to!(ps@[i as int] => ps@[i as int].1));
                    assert(spec_ps.take(i as int + 1).drop_last() =~= spec_ps.take(i as int));
                    assert(spec_ps.take(i as int + 1).last() == spec_ps[i as int]);
                    assert(spec_ps[i as int] == (ps@[i as int].0@, ps@[i as int].1.model()));
                }
                let pair = &ps[i];
                match build_tree(&pair.1) {
                    Ok(c) => {
                        let ghost out0 = out@;
                        out.push((pair.0.clone(), c));
                        proof {
                            assert(out@.drop_last() =~= out0);
                            lemma_view_entry_list(out@);
                            lemma_view_entry_list(out0);
                            assert(view_entry_list(out@) =~= view_entry_list(out0).push(
                                (spec_ps[i as int].0, out@.last().1@),
                            ));
                        }
                    },
                    Err(SchemaError::UnsupportedType(mut p)) => {
                        let ghost p0 = p@;
                        p.insert(0, PathComponent::Name(pair.0.clone()));
                        proof {
                            assert(view_path(p@) =~= seq![
                                SpecPathComponent::Name(ps@[i as int].0@),
                            ] + view_path(p0));
                            assert(build_entries_spec(spec_ps.take(i as int + 1)) == Err::<
                                Seq<(Seq<char>, SpecContainer)>,
                                Seq<SpecPathComponent>,
                            >(view_path(p@)));
                            lemma_build_entries_err(spec_ps, i as int + 1);
                        }
                        return Err(SchemaError::UnsupportedType(p));
                    },
                }
                i = i + 1;
            }
            proof {
                assert(spec_ps.take(i as int) =~= spec_ps);
            }
            Node::Object(out)
        },
        SchemaKind::Array(items) => {
            proof {
                assert(decreases_to!(*schema => schema.kind));
                assert(decreases_to!(schema.kind => schema.kind->Array_0));
            }
            match build_tree(items) {
                Ok(_) => Node::Array(None),
                Err(SchemaError::UnsupportedType(mut p)) => {
                    let ghost p0 = p@;
                    p.insert(0, PathComponent::Index(0));
                    proof {
                        assert(view_path(p@) =~= seq![SpecPathComponent::Index(0)] + view_path(
                            p0,
                        ));
                    }
                    return Err(SchemaError::UnsupportedType(p));
                },
            }
        },
        SchemaKind::OneOf(vs) => {
            let ghost spec_vs = view_schema_list(vs@);
            proof {
                lemma_view_schema_list(vs@);
            }
            let mut out: Vec<NodeContainer> = Vec::new();
            let mut i: usize = 0;
            while i < vs.len()
                invariant
                    i <= vs.len(),
                    build_variants_spec(spec_vs.take(i as int)) == Ok::<
                        Seq<SpecContainer>,
                        Seq<SpecPathComponent>,
                    >(view_container_list(out@)),
                decreases vs@.len() - i,
            {
                proof {
                    assert(decreases_to!(*schema => schema.kind));
                    assert(decreases_to!(schema.kind => schema.kind->OneOf_0));
                    assert(decreases_to!(schema.kind->OneOf_0 => vs@));
                    assert(decreases_to!(vs@ => vs@[i as int]));
                    assert(spec_vs.take(i as int + 1).drop_last() =~= spec_vs.take(i as int));
                    assert(spec_vs.take(i as int + 1).last() == spec_vs[i as int]);
                    assert(spec_vs[i as int] == vs@[i as int].model());
                    assert(spec_vs.take(i as int + 1).len() - 1 == i as int);
                }
                match build_tree(&vs[i]) {
                    Ok(c) => {
                        let ghost out0 = out@;
                        out.push(c);
                        proof {
                            assert(out@.drop_last() =~= out0);
                            lemma_view_container_list(out@);
                            lemma_view_container_list(out0);
                            assert(view_container_list(out@) =~= view_container_list(out0).push(
                                out@.last()@,
                            ));
                        }
                    },
                    Err(SchemaError::UnsupportedType(mut p)) => {
                        let ghost p0 = p@;
                        p.insert(0, PathComponent::Index(i));
                        proof {
                            assert(view_path(p@) =~= seq![
                                SpecPathComponent::Index(i as int),
                            ] + view_path(p0));
                            assert(build_variants_spec(spec_vs.take(i as int + 1)) == Err::<
                                Seq<SpecContainer>,
                                Seq<SpecPathComponent>,
                            >(view_path(p@)));
                            lemma_build_variants_err(spec_vs, i as int + 1);
                        }
                        return Err(SchemaError::UnsupportedType(p));
                    },
                }
                i = i + 1;
            }
            proof {
                assert(spec_vs.take(i as int) =~= spec_vs);
            }
            Node::Enum(NodeEnum { variants: out, selected: None })
        },
        SchemaKind::Unsupported => {
            let p: Vec<PathComponent> = Vec::new();
            proof {
                assert(view_path(p@) =~= Seq::<SpecPathComponent>::empty());
            }
            return Err(SchemaError::UnsupportedType(p));
        },
    };
    Ok(
        NodeContainer {
            node,
            modified: false,
            description: match &schema.description {
                Some(d) => Some(d.clone()),
                None => None,
            },
            default: match &schema.default {
                Some(v) => Some(v.clone()),
                None => None,
            },
        },
    )
}

} // verus!
