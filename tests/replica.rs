use layout_templates::fields::FieldValue;
use layout_templates::layout::{InstanceNode, InstanceSlot, Layer, LayoutDocument, TemplateSlot};
use layout_templates::replica::{
    convert_by_type_project_wide, convert_by_uid, layout_instance_count, project_instance_count,
    ConvertError, SetAllInstancesOfTypePayload, SetReplicasPayload,
};

fn text(s: &str) -> FieldValue {
    FieldValue::Text(s.to_string())
}

fn node(uid: u64, ty: &str, template: TemplateSlot) -> InstanceSlot {
    InstanceSlot::Node(InstanceNode {
        uid: Some(uid),
        object_type: Some(ty.to_string()),
        template,
        rest: serde_json::Value::Null,
    })
}

fn template_def(name: &str) -> TemplateSlot {
    TemplateSlot::Object(vec![
        ("mode".to_string(), text("template")),
        ("templateName".to_string(), text(name)),
    ])
}

fn level1() -> LayoutDocument {
    LayoutDocument {
        layers: Some(vec![Layer {
            instances: Some(vec![
                node(1, "Enemy", template_def("EnemyBase")),
                node(2, "Enemy", TemplateSlot::Absent),
            ]),
            rest: serde_json::Value::Null,
        }]),
        rest: serde_json::Value::Null,
    }
}

fn uid_payload(uids: Vec<u32>, target: &str) -> SetReplicasPayload {
    SetReplicasPayload {
        project_path: "/p".to_string(),
        layout_file_path: "level1.json".to_string(),
        instance_uids: uids,
        target_template_name: target.to_string(),
    }
}

fn type_payload(ty: &str, target: &str) -> SetAllInstancesOfTypePayload {
    SetAllInstancesOfTypePayload {
        project_path: "/p".to_string(),
        layout_file_paths: vec!["level1.json".to_string()],
        object_type_name: ty.to_string(),
        target_template_name: target.to_string(),
    }
}

fn slot(doc: &LayoutDocument, layer: usize, index: usize) -> &InstanceSlot {
    &doc.layers.as_ref().unwrap()[layer].instances.as_ref().unwrap()[index]
}

fn fields_of(s: &InstanceSlot) -> &Vec<(String, FieldValue)> {
    match s {
        InstanceSlot::Node(n) => match &n.template {
            TemplateSlot::Object(f) => f,
            _ => panic!("binding is not an object"),
        },
        _ => panic!("not an instance object"),
    }
}

fn get<'a>(f: &'a [(String, FieldValue)], k: &str) -> Option<&'a FieldValue> {
    f.iter().find(|(key, _)| key == k).map(|(_, v)| v)
}

#[test]
fn convert_by_uid_converts_the_listed_instance() {
    let mut doc = level1();
    let r = convert_by_uid(&mut doc, &uid_payload(vec![2], "EnemyBase"));
    assert_eq!(r, Ok(1));
    assert_eq!(slot(&doc, 0, 0), slot(&level1(), 0, 0));
    let f = fields_of(slot(&doc, 0, 1));
    assert_eq!(get(f, "mode"), Some(&text("replica")));
    assert_eq!(get(f, "sourceTemplateName"), Some(&text("EnemyBase")));
    assert_eq!(get(f, "templateName"), Some(&text("")));
    assert_eq!(get(f, "replicaHierarchyInSyncWithTemplate"), Some(&FieldValue::Flag(true)));
    assert_eq!(get(f, "templatePropagateHierarchyChanges"), Some(&FieldValue::Flag(true)));
    assert_eq!(get(f, "replicaIgnoreTemplateHierarchyChanges"), Some(&FieldValue::Flag(false)));
    assert_eq!(get(f, "components"), Some(&FieldValue::List(vec![])));
    assert_eq!(f.len(), 7);
}

#[test]
fn convert_by_uid_twice_equals_once() {
    let mut once = level1();
    convert_by_uid(&mut once, &uid_payload(vec![1, 2], "EnemyBase")).unwrap();
    let mut twice = level1();
    convert_by_uid(&mut twice, &uid_payload(vec![1, 2], "EnemyBase")).unwrap();
    let again = convert_by_uid(&mut twice, &uid_payload(vec![1, 2], "EnemyBase"));
    assert_eq!(again, Ok(2));
    assert_eq!(once, twice);
}

#[test]
fn convert_by_uid_overrides_a_template() {
    let mut doc = level1();
    assert_eq!(convert_by_uid(&mut doc, &uid_payload(vec![1], "Other")), Ok(1));
    let f = fields_of(slot(&doc, 0, 0));
    assert_eq!(get(f, "mode"), Some(&text("replica")));
    assert_eq!(get(f, "sourceTemplateName"), Some(&text("Other")));
    assert_eq!(get(f, "templateName"), Some(&text("")));
}

#[test]
fn convert_by_uid_keeps_present_flags_and_components() {
    let extra = serde_json::Value::String("keep".to_string());
    let mut doc = LayoutDocument {
        layers: Some(vec![Layer {
            instances: Some(vec![node(
                3,
                "Door",
                TemplateSlot::Object(vec![
                    ("replicaHierarchyInSyncWithTemplate".to_string(), FieldValue::Flag(false)),
                    ("components".to_string(), FieldValue::List(vec![extra.clone()])),
                    ("custom".to_string(), FieldValue::Other(serde_json::Value::Null)),
                ]),
            )]),
            rest: serde_json::Value::Null,
        }]),
        rest: serde_json::Value::Null,
    };
    assert_eq!(convert_by_uid(&mut doc, &uid_payload(vec![3], "DoorBase")), Ok(1));
    let f = fields_of(slot(&doc, 0, 0));
    assert_eq!(get(f, "replicaHierarchyInSyncWithTemplate"), Some(&FieldValue::Flag(false)));
    assert_eq!(get(f, "components"), Some(&FieldValue::List(vec![extra])));
    assert_eq!(get(f, "custom"), Some(&FieldValue::Other(serde_json::Value::Null)));
    assert_eq!(get(f, "templatePropagateHierarchyChanges"), Some(&FieldValue::Flag(true)));
    assert_eq!(get(f, "sourceTemplateName"), Some(&text("DoorBase")));
}

#[test]
fn convert_by_uid_with_no_match_counts_zero() {
    let mut doc = level1();
    assert_eq!(convert_by_uid(&mut doc, &uid_payload(vec![99], "EnemyBase")), Ok(0));
    assert_eq!(doc, level1());
}

#[test]
fn convert_by_uid_matches_the_low_32_bits() {
    let mut doc = LayoutDocument {
        layers: Some(vec![Layer {
            instances: Some(vec![node((1u64 << 32) + 2, "Enemy", TemplateSlot::Absent)]),
            rest: serde_json::Value::Null,
        }]),
        rest: serde_json::Value::Null,
    };
    assert_eq!(convert_by_uid(&mut doc, &uid_payload(vec![2], "EnemyBase")), Ok(1));
}

#[test]
fn convert_by_uid_without_layers_fails() {
    let mut doc = LayoutDocument { layers: None, rest: serde_json::Value::Null };
    let r = convert_by_uid(&mut doc, &uid_payload(vec![1], "EnemyBase"));
    assert_eq!(r, Err(ConvertError::MissingLayers));
}

#[test]
fn convert_by_uid_refuses_a_binding_that_is_not_an_object() {
    let mut doc = LayoutDocument {
        layers: Some(vec![Layer {
            instances: Some(vec![
                node(1, "Enemy", TemplateSlot::Absent),
                node(2, "Enemy", TemplateSlot::Other(serde_json::Value::Bool(false))),
            ]),
            rest: serde_json::Value::Null,
        }]),
        rest: serde_json::Value::Null,
    };
    let r = convert_by_uid(&mut doc, &uid_payload(vec![1, 2], "EnemyBase"));
    assert_eq!(r, Err(ConvertError::TemplateNotObject));
    assert_eq!(slot(&doc, 0, 0), &node(1, "Enemy", TemplateSlot::Absent));
}

#[test]
fn project_wide_skips_the_template_and_converts_the_rest() {
    let mut docs = vec![Some(level1())];
    let report = convert_by_type_project_wide(&mut docs, &type_payload("Enemy", "EnemyBase"));
    assert_eq!((report.layouts_modified, report.instances_modified), (1, 1));
    assert_eq!(report.modified, vec![true]);
    let doc = docs[0].as_ref().unwrap();
    assert_eq!(slot(doc, 0, 0), slot(&level1(), 0, 0));
    let f = fields_of(slot(doc, 0, 1));
    assert_eq!(get(f, "mode"), Some(&text("replica")));
    assert_eq!(get(f, "sourceTemplateName"), Some(&text("EnemyBase")));
}

#[test]
fn project_wide_never_touches_templates() {
    let mut docs = vec![Some(LayoutDocument {
        layers: Some(vec![Layer {
            instances: Some(vec![
                node(1, "Enemy", template_def("A")),
                node(2, "Enemy", template_def("B")),
            ]),
            rest: serde_json::Value::Null,
        }]),
        rest: serde_json::Value::Null,
    })];
    let report = convert_by_type_project_wide(&mut docs, &type_payload("Enemy", "A"));
    assert_eq!((report.layouts_modified, report.instances_modified), (0, 0));
    assert_eq!(report.modified, vec![false]);
    assert_eq!(slot(docs[0].as_ref().unwrap(), 0, 1), &node(2, "Enemy", template_def("B")));
}

#[test]
fn project_wide_passes_over_unloaded_and_unmatched_layouts() {
    let other = LayoutDocument {
        layers: Some(vec![Layer {
            instances: Some(vec![node(5, "Coin", TemplateSlot::Absent)]),
            rest: serde_json::Value::Null,
        }]),
        rest: serde_json::Value::Null,
    };
    let mut docs = vec![None, Some(other), Some(level1()), Some(level1())];
    let report = convert_by_type_project_wide(&mut docs, &type_payload("Enemy", "EnemyBase"));
    assert_eq!(report.modified, vec![false, false, true, true]);
    assert_eq!((report.layouts_modified, report.instances_modified), (2, 2));
    assert!(docs[0].is_none());
    assert_eq!(slot(docs[1].as_ref().unwrap(), 0, 0), &node(5, "Coin", TemplateSlot::Absent));
}

#[test]
fn project_wide_leaves_a_non_object_binding_alone() {
    let mut docs = vec![Some(LayoutDocument {
        layers: Some(vec![Layer {
            instances: Some(vec![node(4, "Enemy", TemplateSlot::Other(serde_json::Value::Null))]),
            rest: serde_json::Value::Null,
        }]),
        rest: serde_json::Value::Null,
    })];
    let report = convert_by_type_project_wide(&mut docs, &type_payload("Enemy", "EnemyBase"));
    assert_eq!((report.layouts_modified, report.instances_modified), (0, 0));
}

#[test]
fn instance_counts() {
    assert_eq!(layout_instance_count(&level1()), Some(2));
    let docs = vec![Some(level1()), None, Some(level1())];
    assert_eq!(project_instance_count(&docs), Some(4));
}
