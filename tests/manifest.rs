use layout_templates::manifest::{layouts_from_tokens, read_manifest, ManifestError, XmlToken};
use layout_templates::registry::LayoutEntry;

fn entry(name: &str, path: &str) -> LayoutEntry {
    LayoutEntry { name: name.to_string(), path: path.to_string() }
}

#[test]
fn manifest_lists_layouts_in_order() {
    let xml = "<project><layouts>\n  <layout>\n    <name>Level1</name>\n    <file>level1.json</file>\n  </layout>\n  <layout><name>Menu</name><file>menu.json</file></layout>\n</layouts></project>";
    let r = read_manifest(xml).unwrap();
    assert_eq!(r, vec![entry("Level1", "level1.json"), entry("Menu", "menu.json")]);
}

#[test]
fn manifest_skips_blocks_missing_a_name_or_json_file() {
    let xml = "<l><layout><file>a.json</file></layout><layout><name>B</name></layout><layout><name>C</name><file>c.xml</file></layout><layout><name>D</name><file>d.json</file></layout></l>";
    let r = read_manifest(xml).unwrap();
    assert_eq!(r, vec![entry("D", "d.json")]);
}

#[test]
fn manifest_file_before_name_is_ignored() {
    let xml = "<layout><file>x.json</file><name>X</name></layout>";
    assert_eq!(read_manifest(xml).unwrap(), vec![]);
}

#[test]
fn manifest_unescapes_text() {
    let xml = "<layout><name>A &amp; B</name><file>a&amp;b.json</file></layout>";
    assert_eq!(read_manifest(xml).unwrap(), vec![entry("A & B", "a&b.json")]);
}

#[test]
fn manifest_malformed_markup_fails() {
    let xml = "<layout><name>A</name></wrong>";
    assert_eq!(read_manifest(xml), Err(ManifestError::Malformed));
}

#[test]
fn manifest_tokens_outside_layout_are_ignored() {
    let tokens = vec![
        XmlToken::Open("name".to_string()),
        XmlToken::Text("Stray".to_string()),
        XmlToken::Close("name".to_string()),
        XmlToken::Open("layout".to_string()),
        XmlToken::Open("name".to_string()),
        XmlToken::Text("L".to_string()),
        XmlToken::Close("name".to_string()),
        XmlToken::Open("file".to_string()),
        XmlToken::Text("l.json".to_string()),
        XmlToken::Close("file".to_string()),
        XmlToken::Open("file".to_string()),
        XmlToken::Text("l2.json".to_string()),
        XmlToken::Close("file".to_string()),
        XmlToken::Close("layout".to_string()),
    ];
    assert_eq!(
        layouts_from_tokens(&tokens),
        vec![entry("L", "l.json"), entry("L", "l2.json")]
    );
}
