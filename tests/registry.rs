use layout_templates::fields::FieldValue;
use layout_templates::layout::{InstanceNode, InstanceSlot, Layer, LayoutDocument, TemplateSlot};
use layout_templates::registry::{build_registry, LayoutEntry, LoadedLayout, TemplateDefinition};

fn text(s: &str) -> FieldValue {
    FieldValue::Text(s.to_string())
}

fn node(ty: &str, template: TemplateSlot) -> InstanceSlot {
    InstanceSlot::Node(InstanceNode {
        uid: Some(1),
        object_type: Some(ty.to_string()),
        template,
        rest: serde_json::Value::Null,
    })
}

fn template_def(name: &str) -> TemplateSlot {
    TemplateSlot::Object(vec![
        ("mode".to_string(), text("template")),
        ("templateName".to_string(), text(name)),
    ])
}

fn doc_with(slots: Vec<InstanceSlot>) -> LayoutDocument {
    LayoutDocument {
        layers: Some(vec![Layer { instances: Some(slots), rest: serde_json::Value::Null }]),
        rest: serde_json::Value::Null,
    }
}

fn entry(name: &str, path: &str) -> LayoutEntry {
    LayoutEntry { name: name.to_string(), path: path.to_string() }
}

fn def(name: &str, ty: &str, layout: &str, path: &str) -> TemplateDefinition {
    TemplateDefinition {
        name: name.to_string(),
        object_type: ty.to_string(),
        defined_in_layout_name: layout.to_string(),
        defined_in_layout_path: path.to_string(),
    }
}

#[test]
fn registry_keeps_one_record_for_repeats() {
    let layouts = vec![
        LoadedLayout {
            entry: entry("Level1", "level1.json"),
            doc: Some(doc_with(vec![node("Sprite", template_def("Enemy"))])),
        },
        LoadedLayout {
            entry: entry("Level1", "level1.json"),
            doc: Some(doc_with(vec![node("Sprite", template_def("Enemy"))])),
        },
    ];
    let r = build_registry(&layouts);
    assert_eq!(r, vec![def("Enemy", "Sprite", "Level1", "level1.json")]);
}

#[test]
fn registry_keeps_templates_of_distinct_layouts_apart() {
    let layouts = vec![
        LoadedLayout {
            entry: entry("Level1", "level1.json"),
            doc: Some(doc_with(vec![node("Sprite", template_def("Enemy"))])),
        },
        LoadedLayout {
            entry: entry("Level2", "level2.json"),
            doc: Some(doc_with(vec![node("Sprite", template_def("Enemy"))])),
        },
    ];
    let r = build_registry(&layouts);
    assert_eq!(r.len(), 2);
    assert!(r.contains(&def("Enemy", "Sprite", "Level1", "level1.json")));
    assert!(r.contains(&def("Enemy", "Sprite", "Level2", "level2.json")));
}

#[test]
fn registry_passes_over_a_missing_layout() {
    let layouts = vec![
        LoadedLayout { entry: entry("Gone", "gone.json"), doc: None },
        LoadedLayout {
            entry: entry("Level1", "level1.json"),
            doc: Some(doc_with(vec![
                node("Enemy", template_def("EnemyBase")),
                node("Enemy", TemplateSlot::Absent),
            ])),
        },
    ];
    let r = build_registry(&layouts);
    assert_eq!(r, vec![def("EnemyBase", "Enemy", "Level1", "level1.json")]);
}

#[test]
fn registry_ignores_empty_names_replicas_and_non_text() {
    let layouts = vec![LoadedLayout {
        entry: entry("L", "l.json"),
        doc: Some(doc_with(vec![
            node("A", template_def("")),
            node(
                "B",
                TemplateSlot::Object(vec![
                    ("mode".to_string(), text("replica")),
                    ("templateName".to_string(), text("X")),
                ]),
            ),
            node(
                "C",
                TemplateSlot::Object(vec![
                    ("mode".to_string(), text("template")),
                    ("templateName".to_string(), FieldValue::Flag(true)),
                ]),
            ),
            InstanceSlot::Node(InstanceNode {
                uid: None,
                object_type: None,
                template: template_def("Untyped"),
                rest: serde_json::Value::Null,
            }),
        ])),
    }];
    let r = build_registry(&layouts);
    assert_eq!(r, vec![def("Untyped", "", "L", "l.json")]);
}
