//! Laws of the tree model: properties that relate building, editing,
//! resolving and materializing, proved once and for all.

use vstd::prelude::*;

use crate::edit::{
    apply_change_spec, apply_default_spec, apply_leaf_spec, marks_modified, SpecChange,
};
use crate::edit::{clear_container_list, clear_entry_list, lemma_clear_container_list,
    lemma_clear_entry_list};
use crate::materialize::{materialize_entries, materialize_spec, MaterializeError};
use crate::node::{
    lemma_unmarked_entry_list, lemma_wf_container_list, lemma_wf_entry_list, unique_keys,
    SpecContainer, SpecNode,
};
use crate::path::{PathError, SpecPathComponent};
use crate::resolve::{key_index, lemma_key_index, resolve_spec};
use crate::value::SpecValue;

verus! {

/// An unmodified container contributes nothing to the overlay: whatever its
/// node holds, it materializes to nothing.
pub proof fn lemma_unmodified_materializes_none(c: SpecContainer)
    requires
        !c.modified,
    ensures
        materialize_spec(c) == Ok::<Option<SpecValue>, MaterializeError>(None),
{
}

/// Applying a default leaves a container unmodified, and an immediately
/// following materialization of that container yields nothing again.
pub proof fn lemma_apply_default_unmarks(c: SpecContainer)
    ensures
        !apply_default_spec(c).modified,
        materialize_spec(apply_default_spec(c)) == Ok::<Option<SpecValue>, MaterializeError>(
            None,
        ),
{
}

/// Selecting a variant never touches the variants themselves: every
/// variant's own state survives any selection.
pub proof fn lemma_select_preserves_variants(c: SpecContainer, i: int)
    requires
        apply_leaf_spec(c, SpecChange::SelectEnumVariant(i)) is Ok,
    ensures
        apply_leaf_spec(c, SpecChange::SelectEnumVariant(i))->Ok_0.node->Enum_variants
            == c.node->Enum_variants,
        apply_leaf_spec(c, SpecChange::SelectEnumVariant(i))->Ok_0.node->Enum_selected
            == Some(i),
{
}

/// Selecting variant `i`, then `j`, then `i` again leaves the container
/// exactly as after the first selection: variant state is independent of
/// the selection history.
pub proof fn lemma_select_round_trip(c: SpecContainer, i: int, j: int)
    requires
        apply_leaf_spec(c, SpecChange::SelectEnumVariant(i)) is Ok,
        apply_leaf_spec(c, SpecChange::SelectEnumVariant(j)) is Ok,
    ensures
        ({
            let c1 = apply_leaf_spec(c, SpecChange::SelectEnumVariant(i))->Ok_0;
            let c2 = apply_leaf_spec(c1, SpecChange::SelectEnumVariant(j))->Ok_0;
            apply_leaf_spec(c2, SpecChange::SelectEnumVariant(i)) == Ok::<
                SpecContainer,
                PathError,
            >(c1)
        }),
{
}

/// Storing numeric text always keeps the text verbatim, and holds a parsed
/// value exactly when the text satisfies the kind's grammar.
pub proof fn lemma_set_number_text_validity(c: SpecContainer, t: Seq<char>)
    requires
        apply_leaf_spec(c, SpecChange::SetNumberText(t)) is Ok,
    ensures
        ({
            let c2 = apply_leaf_spec(c, SpecChange::SetNumberText(t))->Ok_0;
            &&& c2.node is Number
            &&& c2.node->Number_0.raw_text == t
            &&& c2.node->Number_0.value == crate::num::spec_parse_number(
                c.node->Number_0.kind,
                t,
            )
            &&& c2.modified
        }),
{
}

/// A modified array with elements always materializes to a list of exactly
/// the array's length: elements that contribute nothing are held as nulls,
/// never dropped.
pub proof fn lemma_array_materialization_keeps_length(c: SpecContainer)
    requires
        c.modified,
        c.node is Array,
        c.node->Array_0 is Some,
    ensures
        materialize_spec(c) matches Ok(v) ==> v matches Some(SpecValue::List(xs))
            && xs.len() == c.node->Array_0->0.len(),
{
    crate::materialize::lemma_materialize_elements_len(c.node->Array_0->0);
}

/// Replacing an entry's subtree under its own name leaves every name where
/// it was, so lookups find the same position.
proof fn lemma_key_index_update_same_name(
    es: Seq<(Seq<char>, SpecContainer)>,
    k: int,
    x: SpecContainer,
    nm: Seq<char>,
)
    requires
        0 <= k < es.len(),
    ensures
        key_index(es.update(k, (es[k].0, x)), nm) == key_index(es, nm),
    decreases es.len(),
{
    let es2 = es.update(k, (es[k].0, x));
    assert(es2.len() == es.len());
    assert(es2[0].0 == es[0].0);
    if es[0].0 != nm {
        if k == 0 {
            assert(es2.drop_first() =~= es.drop_first());
        } else {
            assert(es2.drop_first() =~= es.drop_first().update(k - 1, (es.drop_first()[k - 1].0, x)));
            lemma_key_index_update_same_name(es.drop_first(), k - 1, x, nm);
        }
    }
}

/// After a successful edit, resolving the same path in the edited tree
/// finds exactly the edited target: the old target with the change applied.
/// Together with the edit's own contract this is the read-back half of a
/// round trip: an edit's final value is what resolution then reports.
pub proof fn lemma_apply_then_resolve(
    c: SpecContainer,
    path: Seq<SpecPathComponent>,
    ch: SpecChange,
)
    requires
        apply_change_spec(c, path, ch) is Ok,
    ensures
        resolve_spec(c, path) is Ok,
        ({
            let c2 = apply_change_spec(c, path, ch)->Ok_0;
            &&& resolve_spec(c2, path) is Ok
            &&& apply_leaf_spec(resolve_spec(c, path)->Ok_0, ch) == Ok::<
                SpecContainer,
                PathError,
            >(resolve_spec(c2, path)->Ok_0)
        }),
    decreases path.len(),
{
    let c2 = apply_change_spec(c, path, ch)->Ok_0;
    if path.len() == 0 {
    } else {
        match path[0] {
            SpecPathComponent::Name(nm) => {
                let es = c.node->Object_0;
                let k = key_index(es, nm);
                lemma_key_index(es, nm);
                lemma_apply_then_resolve(es[k].1, path.drop_first(), ch);
                let child2 = apply_change_spec(es[k].1, path.drop_first(), ch)->Ok_0;
                lemma_key_index_update_same_name(es, k, child2, nm);
                assert(c2.node->Object_0 == es.update(k, (es[k].0, child2)));
                assert(c2.node->Object_0[k].1 == child2);
            },
            SpecPathComponent::Index(i) => {
                if c.node is Array {
                    let cs = c.node->Array_0->0;
                    lemma_apply_then_resolve(cs[i], path.drop_first(), ch);
                } else {
                    let vs = c.node->Enum_variants;
                    lemma_apply_then_resolve(vs[i], path.drop_first(), ch);
                }
            },
        }
    }
}

/// Resetting a subtree toward its default keeps it well-formed: names stay
/// where they were and the cleared enumeration has nothing selected.
pub proof fn lemma_apply_default_preserves_wf(c: SpecContainer)
    requires
        c.wf(),
    ensures
        apply_default_spec(c).wf(),
    decreases c,
{
    match c.node {
        SpecNode::Object(es) => {
            let es2 = clear_entry_list(es);
            lemma_clear_entry_list(es);
            lemma_wf_entry_list(es);
            assert(unique_keys(es2)) by {
                assert forall|i: int, j: int| 0 <= i < j < es2.len()
                    implies es2[i].0 != es2[j].0 by {
                    assert(es2[i].0 == es[i].0);
                    assert(es2[j].0 == es[j].0);
                }
            }
            assert forall|i: int| 0 <= i < es2.len() implies (#[trigger] es2[i].1).wf() by {
                assert(decreases_to!(c => c.node));
                assert(decreases_to!(c.node => c.node->Object_0));
                assert(decreases_to!(c.node->Object_0 => es[i]));
                assert(decreases_to!(es[i] => es[i].1));
                lemma_apply_default_preserves_wf(es[i].1);
            }
            lemma_wf_entry_list(es2);
        },
        SpecNode::Enum { variants, .. } => {
            let vs2 = clear_container_list(variants);
            lemma_clear_container_list(variants);
            lemma_wf_container_list(variants);
            assert forall|i: int| 0 <= i < vs2.len() implies (#[trigger] vs2[i]).wf() by {
                assert(decreases_to!(c => c.node));
                assert(decreases_to!(c.node => c.node->Enum_variants));
                assert(decreases_to!(c.node->Enum_variants => variants[i]));
                lemma_apply_default_preserves_wf(variants[i]);
            }
            lemma_wf_container_list(vs2);
        },
        SpecNode::Array(vs) => {
            match vs {
                Some(cs) => {
                    let cs2 = clear_container_list(cs);
                    lemma_clear_container_list(cs);
                    lemma_wf_container_list(cs);
                    assert forall|i: int| 0 <= i < cs2.len() implies (#[trigger] cs2[i]).wf() by {
                        assert(decreases_to!(c => c.node));
                        assert(decreases_to!(c.node => c.node->Array_0));
                        assert(decreases_to!(c.node->Array_0 => c.node->Array_0->0));
                        assert(decreases_to!(c.node->Array_0->0 => cs[i]));
                        lemma_apply_default_preserves_wf(cs[i]);
                    }
                    lemma_wf_container_list(cs2);
                },
                None => {},
            }
        },
        _ => {},
    }
}

/// A successful edit leaves the tree well-formed: object keys keep their
/// places and every enumeration's selection stays within its variants.
pub proof fn lemma_apply_preserves_wf(c: SpecContainer, path: Seq<SpecPathComponent>, ch: SpecChange)
    requires
        c.wf(),
        apply_change_spec(c, path, ch) is Ok,
    ensures
        apply_change_spec(c, path, ch)->Ok_0.wf(),
    decreases path.len(),
{
    let c2 = apply_change_spec(c, path, ch)->Ok_0;
    if path.len() == 0 {
        match ch {
            SpecChange::ApplyDefault => {
                lemma_apply_default_preserves_wf(c);
            },
            _ => {
            },
        }
    } else {
        match path[0] {
            SpecPathComponent::Name(nm) => {
                let es = c.node->Object_0;
                let k = key_index(es, nm);
                lemma_key_index(es, nm);
                lemma_wf_entry_list(es);
                lemma_apply_preserves_wf(es[k].1, path.drop_first(), ch);
                let child2 = apply_change_spec(es[k].1, path.drop_first(), ch)->Ok_0;
                let es2 = es.update(k, (es[k].0, child2));
                assert(unique_keys(es2)) by {
                    assert forall|i: int, j: int| 0 <= i < j < es2.len()
                        implies es2[i].0 != es2[j].0 by {
                        assert(es2[i].0 == es[i].0);
                        assert(es2[j].0 == es[j].0);
                    }
                }
                assert forall|i: int| 0 <= i < es2.len() implies (#[trigger] es2[i].1).wf() by {
                    if i != k {
                        assert(es2[i] == es[i]);
                    }
                }
                lemma_wf_entry_list(es2);
            },
            SpecPathComponent::Index(i) => {
                if c.node is Array {
                    let cs = c.node->Array_0->0;
                    lemma_wf_container_list(cs);
                    lemma_apply_preserves_wf(cs[i], path.drop_first(), ch);
                    let cs2 = cs.update(i, apply_change_spec(cs[i], path.drop_first(), ch)->Ok_0);
                    assert forall|j: int| 0 <= j < cs2.len() implies (#[trigger] cs2[j]).wf() by {
                        if j != i {
                            assert(cs2[j] == cs[j]);
                        }
                    }
                    lemma_wf_container_list(cs2);
                } else {
                    let vs = c.node->Enum_variants;
                    lemma_wf_container_list(vs);
                    lemma_apply_preserves_wf(vs[i], path.drop_first(), ch);
                    let vs2 = vs.update(i, apply_change_spec(vs[i], path.drop_first(), ch)->Ok_0);
                    assert forall|j: int| 0 <= j < vs2.len() implies (#[trigger] vs2[j]).wf() by {
                        if j != i {
                            assert(vs2[j] == vs[j]);
                        }
                    }
                    lemma_wf_container_list(vs2);
                }
            },
        }
    }
}

/// Every component of the path is a field name.
pub open spec fn names_only(path: Seq<SpecPathComponent>) -> bool {
    forall|i: int| 0 <= i < path.len() ==> (#[trigger] path[i]) is Name
}

/// The minimal overlay holding exactly one value at the end of a path of
/// field names: dictionaries of one entry each, nested along the path.
pub open spec fn singleton_overlay(path: Seq<SpecPathComponent>, v: SpecValue) -> SpecValue
    decreases path.len(),
{
    if path.len() == 0 {
        v
    } else {
        SpecValue::Dict(
            seq![(path[0]->Name_0, singleton_overlay(path.drop_first(), v))],
        )
    }
}

/// Entries that all materialize to nothing materialize to the empty map.
proof fn lemma_materialize_entries_all_none(es: Seq<(Seq<char>, SpecContainer)>)
    requires
        forall|j: int| 0 <= j < es.len() ==> materialize_spec(#[trigger] es[j].1) == Ok::<
            Option<SpecValue>,
            MaterializeError,
        >(None),
    ensures
        materialize_entries(es) == Ok::<Seq<(Seq<char>, SpecValue)>, MaterializeError>(
            Seq::empty(),
        ),
    decreases es,
{
    if es.len() > 0 {
        assert forall|j: int| 0 <= j < es.len() - 1
            implies materialize_spec(#[trigger] es.drop_last()[j].1) == Ok::<
            Option<SpecValue>,
            MaterializeError,
        >(None) by {
            assert(es.drop_last()[j] == es[j]);
        }
        lemma_materialize_entries_all_none(es.drop_last());
        assert(es.last() == es[es.len() - 1]);
    }
}

/// Entries of which exactly one contributes a value materialize to the map
/// holding that one entry, under its own name.
proof fn lemma_materialize_entries_single(
    es: Seq<(Seq<char>, SpecContainer)>,
    k: int,
    v: SpecValue,
)
    requires
        0 <= k < es.len(),
        materialize_spec(es[k].1) == Ok::<Option<SpecValue>, MaterializeError>(Some(v)),
        forall|j: int| 0 <= j < es.len() && j != k ==> materialize_spec(#[trigger] es[j].1)
            == Ok::<Option<SpecValue>, MaterializeError>(None),
    ensures
        materialize_entries(es) == Ok::<Seq<(Seq<char>, SpecValue)>, MaterializeError>(
            seq![(es[k].0, v)],
        ),
    decreases es,
{
    if k == es.len() - 1 {
        assert forall|j: int| 0 <= j < es.len() - 1
            implies materialize_spec(#[trigger] es.drop_last()[j].1) == Ok::<
            Option<SpecValue>,
            MaterializeError,
        >(None) by {
            assert(es.drop_last()[j] == es[j]);
        }
        lemma_materialize_entries_all_none(es.drop_last());
        assert(es.last() == es[k]);
        assert(Seq::<(Seq<char>, SpecValue)>::empty().push((es[k].0, v)) =~= seq![(es[k].0, v)]);
    } else {
        assert forall|j: int| 0 <= j < es.len() - 1 && j != k
            implies materialize_spec(#[trigger] es.drop_last()[j].1) == Ok::<
            Option<SpecValue>,
            MaterializeError,
        >(None) by {
            assert(es.drop_last()[j] == es[j]);
        }
        assert(es.drop_last()[k] == es[k]);
        lemma_materialize_entries_single(es.drop_last(), k, v);
        assert(es.last() == es[es.len() - 1]);
    }
}

/// The heart of the round trip, for one edit: a set edit at a path of field
/// names, applied to a tree in which nothing was modified yet, materializes
/// to exactly the nested singleton overlay holding the edit's value at the
/// edited path — the edited path with its final value, and no others.
pub proof fn lemma_single_edit_overlay(
    c: SpecContainer,
    path: Seq<SpecPathComponent>,
    ch: SpecChange,
    v: SpecValue,
)
    requires
        c.all_unmarked(),
        names_only(path),
        marks_modified(ch),
        apply_change_spec(c, path, ch) is Ok,
        ({
            let target = resolve_spec(c, path)->Ok_0;
            materialize_spec(apply_leaf_spec(target, ch)->Ok_0) == Ok::<
                Option<SpecValue>,
                MaterializeError,
            >(Some(v))
        }),
    ensures
        materialize_spec(apply_change_spec(c, path, ch)->Ok_0) == Ok::<
            Option<SpecValue>,
            MaterializeError,
        >(Some(singleton_overlay(path, v))),
    decreases path.len(),
{
    lemma_apply_then_resolve(c, path, ch);
    let c2 = apply_change_spec(c, path, ch)->Ok_0;
    if path.len() == 0 {
    } else {
        assert(path[0] is Name);
        let nm = path[0]->Name_0;
        let es = c.node->Object_0;
        let k = key_index(es, nm);
        lemma_key_index(es, nm);
        lemma_unmarked_entry_list(es);
        assert forall|i: int| 0 <= i < path.drop_first().len()
            implies (#[trigger] path.drop_first()[i]) is Name by {
            assert(path.drop_first()[i] == path[i + 1]);
        }
        lemma_single_edit_overlay(es[k].1, path.drop_first(), ch, v);
        let child2 = apply_change_spec(es[k].1, path.drop_first(), ch)->Ok_0;
        let es2 = es.update(k, (es[k].0, child2));
        assert(c2.node->Object_0 == es2);
        assert forall|j: int| 0 <= j < es2.len() && j != k
            implies materialize_spec(#[trigger] es2[j].1) == Ok::<
            Option<SpecValue>,
            MaterializeError,
        >(None) by {
            assert(es2[j] == es[j]);
            assert(es[j].1.all_unmarked());
            lemma_unmodified_materializes_none(es[j].1);
        }
        lemma_materialize_entries_single(
            es2,
            k,
            singleton_overlay(path.drop_first(), v),
        );
        assert(es2[k].0 == nm);
        assert(materialize_spec(c2) == Ok::<Option<SpecValue>, MaterializeError>(
            Some(SpecValue::Dict(seq![(nm, singleton_overlay(path.drop_first(), v))])),
        ));
    }
}

/// The two paths part ways: somewhere before either ends, after a common
/// prefix, they name different steps.
pub open spec fn diverges(p: Seq<SpecPathComponent>, q: Seq<SpecPathComponent>) -> bool
    decreases p.len(),
{
    p.len() > 0 && q.len() > 0 && (p[0] != q[0] || diverges(p.drop_first(), q.drop_first()))
}

/// An edit touches nothing off its own path: resolving any diverging path
/// afterwards finds exactly the container, state and all, that was there
/// before. Together with `lemma_apply_then_resolve` and
/// `lemma_single_edit_overlay` this is the "no others" half of a round
/// trip.
pub proof fn lemma_edit_preserves_divergent_paths(
    c: SpecContainer,
    p: Seq<SpecPathComponent>,
    q: Seq<SpecPathComponent>,
    ch: SpecChange,
)
    requires
        apply_change_spec(c, p, ch) is Ok,
        diverges(p, q),
    ensures
        resolve_spec(apply_change_spec(c, p, ch)->Ok_0, q) == resolve_spec(c, q),
    decreases p.len(),
{
    let c2 = apply_change_spec(c, p, ch)->Ok_0;
    match p[0] {
        SpecPathComponent::Name(nm) => {
            let es = c.node->Object_0;
            let k = key_index(es, nm);
            lemma_key_index(es, nm);
            let child2 = apply_change_spec(es[k].1, p.drop_first(), ch)->Ok_0;
            let es2 = es.update(k, (es[k].0, child2));
            assert(c2.node->Object_0 == es2);
            match q[0] {
                SpecPathComponent::Name(qn) => {
                    lemma_key_index_update_same_name(es, k, child2, qn);
                    let kq = key_index(es2, qn);
                    lemma_key_index(es2, qn);
                    if kq >= 0 {
                        if p[0] == q[0] {
                            assert(kq == k);
                            lemma_edit_preserves_divergent_paths(
                                es[k].1,
                                p.drop_first(),
                                q.drop_first(),
                                ch,
                            );
                        } else {
                            assert(es2[kq].0 == qn);
                            assert(es[k].0 == nm);
                            assert(kq != k);
                            assert(es2[kq] == es[kq]);
                        }
                    }
                },
                SpecPathComponent::Index(_) => {
                },
            }
        },
        SpecPathComponent::Index(i) => {
            match q[0] {
                SpecPathComponent::Index(iq) => {
                    if c.node is Array {
                        let cs = c.node->Array_0->0;
                        let child2 = apply_change_spec(cs[i], p.drop_first(), ch)->Ok_0;
                        assert(c2.node->Array_0->0 == cs.update(i, child2));
                        if 0 <= iq < cs.len() {
                            if i == iq {
                                lemma_edit_preserves_divergent_paths(
                                    cs[i],
                                    p.drop_first(),
                                    q.drop_first(),
                                    ch,
                                );
                            } else {
                                assert(cs.update(i, child2)[iq] == cs[iq]);
                            }
                        }
                    } else {
                        let vs = c.node->Enum_variants;
                        let child2 = apply_change_spec(vs[i], p.drop_first(), ch)->Ok_0;
                        assert(c2.node->Enum_variants == vs.update(i, child2));
                        if 0 <= iq < vs.len() {
                            if i == iq {
                                lemma_edit_preserves_divergent_paths(
                                    vs[i],
                                    p.drop_first(),
                                    q.drop_first(),
                                    ch,
                                );
                            } else {
                                assert(vs.update(i, child2)[iq] == vs[iq]);
                            }
                        }
                    }
                },
                SpecPathComponent::Name(_) => {
                },
            }
        },
    }
}

/// A successful set or select edit marks every container on its path
/// modified, the root included, so the edited subtree is never pruned away
/// by materialization above it.
pub proof fn lemma_edit_marks_root(c: SpecContainer, path: Seq<SpecPathComponent>, ch: SpecChange)
    requires
        apply_change_spec(c, path, ch) is Ok,
        marks_modified(ch),
    ensures
        apply_change_spec(c, path, ch)->Ok_0.modified,
{
}

} // verus!
