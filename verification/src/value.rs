//! Generic configuration values: the representation handed across the
//! library's boundary when a tree is materialized, and the representation of
//! schema defaults.
//!
//! A number is either a base-10 signed integer or a decimal floating point
//! value; the latter is carried as its verbatim text so that the whole data
//! model stays within exactly representable values.

use vstd::prelude::*;

verus! {

/// Kind of a numeric leaf: base-10 signed integer or decimal floating point.
#[derive(Clone, Copy, PartialEq, Eq, Structural, Debug)]
pub enum NumberKind {
    Integer,
    Float,
}

/// A parsed numeric value. A floating point value is carried as the verbatim
/// text that passed the decimal grammar; turning it into machine floating
/// point is left to the consumer at the boundary.
#[derive(PartialEq, Eq, Debug)]
pub enum NumberValue {
    Int(i128),
    Float(String),
}

/// Mathematical model of a `NumberValue`.
pub enum SpecNumberValue {
    Int(i128),
    Float(Seq<char>),
}

impl View for NumberValue {
    type V = SpecNumberValue;

    open spec fn view(&self) -> SpecNumberValue {
        match self {
            NumberValue::Int(i) => SpecNumberValue::Int(*i),
            NumberValue::Float(t) => SpecNumberValue::Float(t@),
        }
    }
}

impl NumberValue {
    /// Deep copy; the copy has the same mathematical value.
    pub fn dup(&self) -> (res: Self)
        ensures
            res@ == self@,
    {
        match self {
            NumberValue::Int(i) => NumberValue::Int(*i),
            NumberValue::Float(t) => NumberValue::Float(t.clone()),
        }
    }
}

/// A generic JSON-like value: the minimal overlay produced by
/// materialization, and the form in which schema defaults are stored.
/// `Dict` keeps its entries in insertion order; keys are expected unique.
#[derive(Debug, PartialEq, Eq)]
pub enum ConfigValue {
    Null,
    Bool(bool),
    Num(NumberValue),
    Text(String),
    List(Vec<ConfigValue>),
    Dict(Vec<(String, ConfigValue)>),
}

/// Mathematical model of a `ConfigValue`.
pub enum SpecValue {
    Null,
    Bool(bool),
    Num(SpecNumberValue),
    Text(Seq<char>),
    List(Seq<SpecValue>),
    Dict(Seq<(Seq<char>, SpecValue)>),
}

impl View for ConfigValue {
    type V = SpecValue;

    open spec fn view(&self) -> SpecValue {
        self.deep_view_value()
    }
}

/// Models of the elements of a list of values, in order.
pub open spec fn view_value_list(vs: Seq<ConfigValue>) -> Seq<SpecValue>
    decreases vs,
{
    if vs.len() == 0 {
        Seq::empty()
    } else {
        view_value_list(vs.drop_last()).push(vs.last().deep_view_value())
    }
}

/// Models of the entries of a dictionary, in order.
pub open spec fn view_value_dict(ps: Seq<(String, ConfigValue)>) -> Seq<(Seq<char>, SpecValue)>
    decreases ps,
{
    if ps.len() == 0 {
        Seq::empty()
    } else {
        view_value_dict(ps.drop_last()).push((ps.last().0@, ps.last().1.deep_view_value()))
    }
}

impl ConfigValue {
    /// Mathematical value of this `ConfigValue`, children included.
    pub open spec fn deep_view_value(&self) -> SpecValue
        decreases self,
        via Self::view_decreases
    {
        match self {
            ConfigValue::Null => SpecValue::Null,
            ConfigValue::Bool(b) => SpecValue::Bool(*b),
            ConfigValue::Num(n) => SpecValue::Num(n@),
            ConfigValue::Text(s) => SpecValue::Text(s@),
            ConfigValue::List(vs) => SpecValue::List(view_value_list(vs@)),
            ConfigValue::Dict(ps) => SpecValue::Dict(view_value_dict(ps@)),
        }
    }

    #[via_fn]
    proof fn view_decreases(&self) {
        match self {
            ConfigValue::List(vs) => {
                assert(decreases_to!(*self => self->List_0));
                assert(decreases_to!(self->List_0 => vs@));
            },
            ConfigValue::Dict(ps) => {
                assert(decreases_to!(*self => self->Dict_0));
                assert(decreases_to!(self->Dict_0 => ps@));
            },
            _ => {},
        }
    }
}

/// The model of a list is the model of each element, in order.
pub proof fn lemma_view_value_list(vs: Seq<ConfigValue>)
    ensures
        view_value_list(vs).len() == vs.len(),
        forall|i: int| 0 <= i < vs.len()
            ==> view_value_list(vs)[i] == #[trigger] vs[i].deep_view_value(),
    decreases vs,
{
    if vs.len() > 0 {
        lemma_view_value_list(vs.drop_last());
        assert forall|i: int| 0 <= i < vs.len()
            implies view_value_list(vs)[i] == #[trigger] vs[i].deep_view_value() by {
            if i < vs.len() - 1 {
                assert(vs.drop_last()[i] == vs[i]);
            } else {
                assert(vs[i] == vs.last());
            }
        }
    }
}

/// The model of a dictionary is the model of each entry, in order.
pub proof fn lemma_view_value_dict(ps: Seq<(String, ConfigValue)>)
    ensures
        view_value_dict(ps).len() == ps.len(),
        forall|i: int| 0 <= i < ps.len()
            ==> view_value_dict(ps)[i] == (#[trigger] ps[i].0@, ps[i].1.deep_view_value()),
    decreases ps,
{
    if ps.len() > 0 {
        lemma_view_value_dict(ps.drop_last());
        assert forall|i: int| 0 <= i < ps.len()
            implies view_value_dict(ps)[i] == (#[trigger] ps[i].0@, ps[i].1.deep_view_value()) by {
            if i < ps.len() - 1 {
                assert(ps.drop_last()[i] == ps[i]);
            } else {
                assert(ps[i] == ps.last());
            }
        }
    }
}

impl Clone for ConfigValue {
    /// Deep copy; the copy has the same mathematical value.
    #[verifier::loop_isolation(false)]
    fn clone(&self) -> (res: Self)
        ensures
            res@ == self@,
        decreases self,
    {
        match self {
            ConfigValue::Null => ConfigValue::Null,
            ConfigValue::Bool(b) => ConfigValue::Bool(*b),
            ConfigValue::Num(n) => ConfigValue::Num(n.dup()),
            ConfigValue::Text(s) => ConfigValue::Text(s.clone()),
            ConfigValue::List(vs) => {
                let mut out: Vec<ConfigValue> = Vec::new();
                let mut i: usize = 0;
                while i < vs.len()
                    invariant
                        i <= vs.len(),
                        out@.len() == i as int,
                        forall|j: int| 0 <= j < i as int
                            ==> #[trigger] out@[j].deep_view_value() == vs@[j].deep_view_value(),
                    decreases vs.len() - i,
                {
                    proof {
                        assert(decreases_to!(*self => self->List_0));
                        assert(decreases_to!(self->List_0 => vs@));
                        assert(decreases_to!(vs@ => vs@[i as int]));
                    }
                    out.push(vs[i].clone());
                    i = i + 1;
                }
                let res = ConfigValue::List(out);
                proof {
                    lemma_view_value_list(out@);
                    lemma_view_value_list(vs@);
                    assert forall|k: int| 0 <= k < out@.len()
                        implies view_value_list(out@)[k] == view_value_list(vs@)[k] by {
                        assert(out@[k].deep_view_value() == vs@[k].deep_view_value());
                    }
                    assert(view_value_list(out@) =~= view_value_list(vs@));
                }
                res
            },
            ConfigValue::Dict(ps) => {
                let mut out: Vec<(String, ConfigValue)> = Vec::new();
                let mut i: usize = 0;
                while i < ps.len()
                    invariant
                        i <= ps.len(),
                        out@.len() == i as int,
                        forall|j: int| 0 <= j < i as int
                            ==> #[trigger] out@[j].0@ == ps@[j].0@
                                && out@[j].1.deep_view_value() == ps@[j].1.deep_view_value(),
                    decreases ps.len() - i,
                {
                    proof {
                        assert(decreases_to!(*self => self->Dict_0));
                        assert(decreases_to!(self->Dict_0 => ps@));
                        assert(decreases_to!(ps@ => ps@[i as int]));
                        assert(decreases_to!(ps@[i as int] => ps@[i as int].1));
                    }
                    let pair = &ps[i];
                    out.push((pair.0.clone(), pair.1.clone()));
                    i = i + 1;
                }
                let res = ConfigValue::Dict(out);
                proof {
                    lemma_view_value_dict(out@);
                    lemma_view_value_dict(ps@);
                    assert forall|k: int| 0 <= k < out@.len()
                        implies view_value_dict(out@)[k] == view_value_dict(ps@)[k] by {
                        assert(out@[k].0@ == ps@[k].0@);
                    }
                    assert(view_value_dict(out@) =~= view_value_dict(ps@));
                }
                res
            },
        }
    }
}

} // verus!
