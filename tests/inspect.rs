use layout_templates::fields::FieldValue;
use layout_templates::inspect::list_instances;
use layout_templates::layout::{InstanceNode, InstanceSlot, Layer, LayoutDocument, TemplateSlot};

fn text(s: &str) -> FieldValue {
    FieldValue::Text(s.to_string())
}

fn node(uid: u64, ty: &str, template: TemplateSlot) -> InstanceSlot {
    InstanceSlot::Node(InstanceNode {
        uid: Some(uid),
        object_type: Some(ty.to_string()),
        template,
        rest: serde_json::Value::Null,
    })
}

fn template_def(name: &str) -> TemplateSlot {
    TemplateSlot::Object(vec![
        ("mode".to_string(), text("template")),
        ("templateName".to_string(), text(name)),
    ])
}

#[test]
fn list_instances_reports_roles_in_order() {
    let doc = LayoutDocument {
        layers: Some(vec![
            Layer {
                instances: Some(vec![
                    node(1, "Enemy", template_def("EnemyBase")),
                    InstanceSlot::Other(serde_json::Value::Bool(true)),
                    node(2, "Enemy", TemplateSlot::Absent),
                ]),
                rest: serde_json::Value::Null,
            },
            Layer { instances: None, rest: serde_json::Value::Null },
            Layer {
                instances: Some(vec![node(
                    7,
                    "Coin",
                    TemplateSlot::Object(vec![
                        ("mode".to_string(), text("replica")),
                        ("sourceTemplateName".to_string(), text("CoinBase")),
                    ]),
                )]),
                rest: serde_json::Value::Null,
            },
        ]),
        rest: serde_json::Value::Null,
    };
    let list = list_instances(&doc);
    assert_eq!(list.len(), 3);
    assert_eq!(list[0].uid, 1);
    assert!(list[0].is_template && !list[0].is_replica);
    assert_eq!(list[0].template_or_source_name, Some("EnemyBase".to_string()));
    assert_eq!((list[0].layer_index, list[0].instance_index), (0, 0));
    assert_eq!(list[1].uid, 2);
    assert!(!list[1].is_template && !list[1].is_replica);
    assert_eq!(list[1].template_or_source_name, None);
    assert_eq!((list[1].layer_index, list[1].instance_index), (0, 2));
    assert_eq!(list[2].uid, 7);
    assert!(list[2].is_replica);
    assert_eq!(list[2].template_or_source_name, Some("CoinBase".to_string()));
    assert_eq!(list[2].object_type_name, "Coin");
    assert_eq!((list[2].layer_index, list[2].instance_index), (2, 0));
}

#[test]
fn list_instances_defaults_missing_fields() {
    let doc = LayoutDocument {
        layers: Some(vec![Layer {
            instances: Some(vec![InstanceSlot::Node(InstanceNode {
                uid: None,
                object_type: None,
                template: TemplateSlot::Other(serde_json::Value::Null),
                rest: serde_json::Value::Null,
            })]),
            rest: serde_json::Value::Null,
        }]),
        rest: serde_json::Value::Null,
    };
    let list = list_instances(&doc);
    assert_eq!(list.len(), 1);
    assert_eq!(list[0].uid, 0);
    assert_eq!(list[0].object_type_name, "");
    assert!(!list[0].is_template && !list[0].is_replica);
}

#[test]
fn list_instances_truncates_large_uid() {
    let doc = LayoutDocument {
        layers: Some(vec![Layer {
            instances: Some(vec![node((1u64 << 32) + 5, "A", TemplateSlot::Absent)]),
            rest: serde_json::Value::Null,
        }]),
        rest: serde_json::Value::Null,
    };
    assert_eq!(list_instances(&doc)[0].uid, 5);
}

#[test]
fn list_instances_without_layers_is_empty() {
    let doc = LayoutDocument { layers: None, rest: serde_json::Value::Null };
    assert!(list_instances(&doc).is_empty());
}
