//! The tree model end to end: building, resolving, editing, materializing.

use configurator::builder::{build_tree, Schema, SchemaError, SchemaKind};
use configurator::edit::Change;
use configurator::materialize::MaterializeError;
use configurator::node::{Node, NodeContainer, NodeEnum, NodeNumber};
use configurator::path::{PathComponent, PathError};
use configurator::value::{ConfigValue, NumberKind, NumberValue};

fn schema(kind: SchemaKind) -> Schema {
    Schema { kind, default: None, description: None }
}

fn schema_with_default(kind: SchemaKind, default: ConfigValue) -> Schema {
    Schema { kind, default: Some(default), description: None }
}

fn leaf(node: Node) -> NodeContainer {
    NodeContainer { node, modified: false, description: None, default: None }
}

fn modified_leaf(node: Node) -> NodeContainer {
    NodeContainer { node, modified: true, description: None, default: None }
}

fn name(s: &str) -> PathComponent {
    PathComponent::Name(s.to_string())
}

fn settings_schema() -> Schema {
    schema(SchemaKind::Object(vec![
        ("enabled".to_string(), schema_with_default(SchemaKind::Bool, ConfigValue::Bool(true))),
        ("label".to_string(), schema(SchemaKind::Str)),
        ("count".to_string(), schema(SchemaKind::Integer)),
        ("ratio".to_string(), schema(SchemaKind::Float)),
        (
            "mode".to_string(),
            schema(SchemaKind::OneOf(vec![schema(SchemaKind::Bool), schema(SchemaKind::Str)])),
        ),
    ]))
}

#[test]
fn built_tree_materializes_to_nothing() {
    let tree = build_tree(&settings_schema()).unwrap();
    assert!(!tree.modified);
    assert_eq!(tree.to_value(), Ok(None));
}

#[test]
fn built_tree_matches_schema_shape() {
    let tree = build_tree(&settings_schema()).unwrap();
    match &tree.node {
        Node::Object(entries) => {
            assert_eq!(entries.len(), 5);
            assert_eq!(entries[0].0, "enabled");
            assert!(matches!(entries[0].1.node, Node::Bool(None)));
            assert_eq!(entries[0].1.default, Some(ConfigValue::Bool(true)));
            assert!(matches!(entries[1].1.node, Node::Str(None)));
            match &entries[2].1.node {
                Node::Number(n) => {
                    assert_eq!(n.kind, NumberKind::Integer);
                    assert_eq!(n.value, None);
                    assert_eq!(n.raw_text, "");
                }
                other => panic!("unexpected {other:?}"),
            }
            match &entries[4].1.node {
                Node::Enum(e) => {
                    assert_eq!(e.variants.len(), 2);
                    assert_eq!(e.selected, None);
                }
                other => panic!("unexpected {other:?}"),
            }
        }
        other => panic!("unexpected {other:?}"),
    }
}

#[test]
fn builder_copies_description_and_default() {
    let s = Schema {
        kind: SchemaKind::Bool,
        default: Some(ConfigValue::Bool(false)),
        description: Some("turn it off and on again".to_string()),
    };
    let c = build_tree(&s).unwrap();
    assert_eq!(c.description, Some("turn it off and on again".to_string()));
    assert_eq!(c.default, Some(ConfigValue::Bool(false)));
    assert!(!c.modified);
    assert!(matches!(c.node, Node::Bool(None)));
}

#[test]
fn builder_reports_unsupported_schema_nodes() {
    let s = schema(SchemaKind::Object(vec![(
        "outer".to_string(),
        schema(SchemaKind::Object(vec![("inner".to_string(), schema(SchemaKind::Unsupported))])),
    )]));
    assert_eq!(
        build_tree(&s),
        Err(SchemaError::UnsupportedType(vec![name("outer"), name("inner")]))
    );

    let s = schema(SchemaKind::OneOf(vec![
        schema(SchemaKind::Bool),
        schema(SchemaKind::Unsupported),
    ]));
    assert_eq!(
        build_tree(&s),
        Err(SchemaError::UnsupportedType(vec![PathComponent::Index(1)]))
    );

    let s = schema(SchemaKind::Array(Box::new(schema(SchemaKind::Unsupported))));
    assert_eq!(
        build_tree(&s),
        Err(SchemaError::UnsupportedType(vec![PathComponent::Index(0)]))
    );
}

#[test]
fn unmodified_yields_nothing() {
    let c = leaf(Node::Bool(Some(true)));
    assert_eq!(c.to_value(), Ok(None));
    let c = leaf(Node::Value(ConfigValue::Bool(false)));
    assert_eq!(c.to_value(), Ok(None));
}

#[test]
fn round_trip_edits_appear_exactly() {
    let mut tree = build_tree(&settings_schema()).unwrap();
    tree.apply_change(&[name("enabled")], &Change::SetBool(false)).unwrap();
    tree.apply_change(&[name("label")], &Change::SetString("hi".to_string())).unwrap();
    tree.apply_change(&[name("count")], &Change::SetNumberText("42".to_string())).unwrap();
    tree.apply_change(&[name("mode")], &Change::SelectEnumVariant(1)).unwrap();
    tree.apply_change(
        &[name("mode"), PathComponent::Index(1)],
        &Change::SetString("fast".to_string()),
    )
    .unwrap();

    let out = tree.to_value().unwrap().unwrap();
    match out {
        ConfigValue::Dict(entries) => {
            // exactly the edited paths, in tree order, with their final values
            assert_eq!(entries.len(), 4);
            assert_eq!(entries[0], ("enabled".to_string(), ConfigValue::Bool(false)));
            assert_eq!(entries[1], ("label".to_string(), ConfigValue::Text("hi".to_string())));
            assert_eq!(
                entries[2],
                ("count".to_string(), ConfigValue::Num(NumberValue::Int(42)))
            );
            // the enum yields only the selected variant's content, untagged
            assert_eq!(entries[3], ("mode".to_string(), ConfigValue::Text("fast".to_string())));
        }
        other => panic!("unexpected {other:?}"),
    }
}

#[test]
fn untouched_ratio_never_appears() {
    let mut tree = build_tree(&settings_schema()).unwrap();
    tree.apply_change(&[name("ratio")], &Change::SetNumberText("2.5".to_string())).unwrap();
    let out = tree.to_value().unwrap().unwrap();
    match out {
        ConfigValue::Dict(entries) => {
            assert_eq!(entries.len(), 1);
            assert_eq!(
                entries[0],
                ("ratio".to_string(), ConfigValue::Num(NumberValue::Float("2.5".to_string())))
            );
        }
        other => panic!("unexpected {other:?}"),
    }
}

#[test]
fn apply_default_restores_scalar() {
    let mut tree = build_tree(&settings_schema()).unwrap();
    let p = [name("enabled")];
    tree.apply_change(&p, &Change::SetBool(false)).unwrap();
    assert!(tree.get_at(&p).unwrap().modified);

    tree.apply_change(&p, &Change::ApplyDefault).unwrap();
    let target = tree.get_at(&p).unwrap();
    assert!(!target.modified);
    // the schema default is copied back into the value
    assert!(matches!(target.node, Node::Bool(Some(true))));
    assert_eq!(target.to_value(), Ok(None));
}

#[test]
fn apply_default_clears_subtree() {
    let mut tree = build_tree(&settings_schema()).unwrap();
    tree.apply_change(&[name("label")], &Change::SetString("x".to_string())).unwrap();
    tree.apply_change(&[], &Change::ApplyDefault).unwrap();
    assert!(!tree.modified);
    assert_eq!(tree.to_value(), Ok(None));
    let label = tree.get_at(&[name("label")]).unwrap();
    assert!(!label.modified);
    assert!(matches!(label.node, Node::Str(None)));
}

#[test]
fn selection_keeps_variant_state() {
    let mut tree = build_tree(&settings_schema()).unwrap();
    let mode = [name("mode")];
    let first = [name("mode"), PathComponent::Index(0)];
    // edit variant 0 without selecting it: deliberately allowed
    tree.apply_change(&first, &Change::SetBool(true)).unwrap();
    tree.apply_change(&mode, &Change::SelectEnumVariant(0)).unwrap();
    let snapshot = tree.get_at(&first).unwrap().node == Node::Bool(Some(true));
    assert!(snapshot);

    tree.apply_change(&mode, &Change::SelectEnumVariant(1)).unwrap();
    tree.apply_change(&mode, &Change::SelectEnumVariant(0)).unwrap();
    // the first variant's earlier edit survived the switching
    assert_eq!(tree.get_at(&first).unwrap().node, Node::Bool(Some(true)));
    match &tree.get_at(&mode).unwrap().node {
        Node::Enum(e) => assert_eq!(e.selected, Some(0)),
        other => panic!("unexpected {other:?}"),
    }
}

#[test]
fn number_validity_by_kind() {
    let mut tree = build_tree(&settings_schema()).unwrap();
    let count = [name("count")];
    tree.apply_change(&count, &Change::SetNumberText("12.5".to_string())).unwrap();
    match &tree.get_at(&count).unwrap().node {
        Node::Number(n) => {
            assert_eq!(n.value, None);
            assert_eq!(n.raw_text, "12.5");
        }
        other => panic!("unexpected {other:?}"),
    }
    // an invalid in-progress edit is still an edit
    assert!(tree.get_at(&count).unwrap().modified);

    let ratio = [name("ratio")];
    tree.apply_change(&ratio, &Change::SetNumberText("12.5".to_string())).unwrap();
    match &tree.get_at(&ratio).unwrap().node {
        Node::Number(n) => {
            assert_eq!(n.value, Some(NumberValue::Float("12.5".to_string())));
            assert_eq!(n.raw_text, "12.5");
        }
        other => panic!("unexpected {other:?}"),
    }
}

fn object_with(field: &str, child: NodeContainer) -> NodeContainer {
    leaf(Node::Object(vec![(field.to_string(), child)]))
}

#[test]
fn path_resolution_failures() {
    let path = [name("a"), PathComponent::Index(2)];

    let short_array = object_with("a", leaf(Node::Array(Some(vec![leaf(Node::Null)]))));
    assert_eq!(short_array.get_at(&path), Err(PathError::NotFound));

    let not_indexable = object_with("a", leaf(Node::Str(None)));
    assert_eq!(not_indexable.get_at(&path), Err(PathError::TypeMismatch));

    let unset_array = object_with("a", leaf(Node::Array(None)));
    assert_eq!(unset_array.get_at(&path), Err(PathError::NotFound));

    assert_eq!(short_array.get_at(&[name("b")]), Err(PathError::NotFound));
    assert_eq!(short_array.get_at(&[PathComponent::Index(0)]), Err(PathError::TypeMismatch));
}

#[test]
fn empty_path_resolves_to_root() {
    let tree = build_tree(&settings_schema()).unwrap();
    let root = tree.get_at(&[]).unwrap();
    assert_eq!(*root, tree);
}

#[test]
fn edits_fail_cleanly() {
    let mut tree = build_tree(&settings_schema()).unwrap();
    let before = build_tree(&settings_schema()).unwrap();

    assert_eq!(
        tree.apply_change(&[name("label")], &Change::SetBool(true)),
        Err(PathError::TypeMismatch)
    );
    assert_eq!(
        tree.apply_change(&[name("missing")], &Change::SetBool(true)),
        Err(PathError::NotFound)
    );
    assert_eq!(
        tree.apply_change(&[name("mode")], &Change::SelectEnumVariant(2)),
        Err(PathError::NotFound)
    );
    assert_eq!(
        tree.apply_change(&[name("enabled")], &Change::SelectEnumVariant(0)),
        Err(PathError::TypeMismatch)
    );
    // a failed edit leaves the tree exactly as it was
    assert_eq!(tree, before);
}

#[test]
fn array_materialization_keeps_length() {
    let arr = NodeContainer {
        node: Node::Array(Some(vec![
            leaf(Node::Bool(Some(true))),
            modified_leaf(Node::Bool(Some(true))),
            leaf(Node::Bool(Some(false))),
        ])),
        modified: true,
        description: None,
        default: None,
    };
    assert_eq!(
        arr.to_value(),
        Ok(Some(ConfigValue::List(vec![
            ConfigValue::Null,
            ConfigValue::Bool(true),
            ConfigValue::Null,
        ])))
    );
}

#[test]
fn object_always_yields_a_map() {
    let obj = NodeContainer {
        node: Node::Object(vec![("a".to_string(), leaf(Node::Bool(Some(true))))]),
        modified: true,
        description: None,
        default: None,
    };
    assert_eq!(obj.to_value(), Ok(Some(ConfigValue::Dict(vec![]))));
}

#[test]
fn touched_but_empty_scalar_yields_nothing() {
    let c = modified_leaf(Node::Bool(None));
    assert_eq!(c.to_value(), Ok(None));
    let c = modified_leaf(Node::Str(None));
    assert_eq!(c.to_value(), Ok(None));
    let c = modified_leaf(Node::Number(NodeNumber {
        kind: NumberKind::Integer,
        value: None,
        raw_text: "oops".to_string(),
    }));
    assert_eq!(c.to_value(), Ok(None));
}

#[test]
fn null_and_raw_values_pass_through() {
    let c = modified_leaf(Node::Null);
    assert_eq!(c.to_value(), Ok(Some(ConfigValue::Null)));

    let raw = ConfigValue::Dict(vec![(
        "k".to_string(),
        ConfigValue::List(vec![ConfigValue::Num(NumberValue::Int(1))]),
    )]);
    let c = modified_leaf(Node::Value(raw.clone()));
    assert_eq!(c.to_value(), Ok(Some(raw)));
}

#[test]
fn any_nodes_are_refused() {
    let c = modified_leaf(Node::Any);
    assert_eq!(c.to_value(), Err(MaterializeError::Unsupported));

    // but an unmodified one is pruned before it can fail
    let c = leaf(Node::Any);
    assert_eq!(c.to_value(), Ok(None));

    // and it fails the whole object it stands in
    let obj = NodeContainer {
        node: Node::Object(vec![("x".to_string(), modified_leaf(Node::Any))]),
        modified: true,
        description: None,
        default: None,
    };
    assert_eq!(obj.to_value(), Err(MaterializeError::Unsupported));
}

#[test]
fn unselected_enum_yields_nothing() {
    let e = NodeContainer {
        node: Node::Enum(NodeEnum {
            variants: vec![modified_leaf(Node::Bool(Some(true)))],
            selected: None,
        }),
        modified: true,
        description: None,
        default: None,
    };
    assert_eq!(e.to_value(), Ok(None));
}
