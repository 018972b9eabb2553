use config_translate::document::Node;
use config_translate::error::RunError;
use config_translate::source::load_translation_json;
use config_translate::translate::{translate, Replacement};
use config_translate::yaml::{parse_document, render_document};

fn string(s: &str) -> Node {
    Node::String(s.to_string())
}

#[test]
fn end_to_end_outdoor_temperature() {
    let table = load_translation_json(r#"[{"Außentemperatur":"Outdoor Temperature"}]"#).unwrap();
    let document = parse_document(
        r#"{"sensor": [{"name": "Außentemperatur", "id": "s1"}], "button": [], "text_sensor": []}"#,
    )
    .unwrap();
    let done = translate(document, &table).unwrap();
    let expected = Node::Mapping(vec![
        (
            string("sensor"),
            Node::Sequence(vec![Node::Mapping(vec![
                (string("name"), string("Outdoor Temperature")),
                (string("id"), string("s1")),
            ])]),
        ),
        (string("button"), Node::Sequence(vec![])),
        (string("text_sensor"), Node::Sequence(vec![])),
    ]);
    assert_eq!(done.document, expected);
    assert_eq!(
        done.replacements,
        vec![Replacement {
            name: "Außentemperatur".to_string(),
            translation: "Outdoor Temperature".to_string()
        }]
    );
    assert_eq!(done.replacements[0].line(), "Außentemperatur:Outdoor Temperature");
    let written = render_document(&done.document).unwrap();
    assert_eq!(
        written,
        "sensor:\n- name: Outdoor Temperature\n  id: s1\nbutton: []\ntext_sensor: []\n"
    );
    assert_eq!(
        parse_document(&written).unwrap(),
        parse_document(
            r#"{"sensor": [{"name": "Outdoor Temperature", "id": "s1"}], "button": [], "text_sensor": []}"#
        )
        .unwrap()
    );
}

#[test]
fn end_to_end_block_style_configuration() {
    let table = load_translation_json(
        r#"[{"Außentemperatur": "Outdoor Temperature", "Kesseltemperatur": "Boiler Temperature"},
            {"Neustart": "Restart"},
            {"Betriebsart": "Operating Mode"}]"#,
    )
    .unwrap();
    let input = "\
esphome:
  name: heatingpump
wifi:
  ssid: home
  password: !secret wifi_password
sensor:
- platform: custom
  name: Außentemperatur
  update_interval: 60
- platform: custom
  name: Kesseltemperatur
  accuracy: 0.5
button:
- name: Neustart
text_sensor:
- name: Betriebsart
  id: mode
";
    let done = translate(parse_document(input).unwrap(), &table).unwrap();
    let lines: Vec<String> = done.replacements.iter().map(|made| made.line()).collect();
    assert_eq!(
        lines,
        vec![
            "Außentemperatur:Outdoor Temperature",
            "Kesseltemperatur:Boiler Temperature",
            "Neustart:Restart",
            "Betriebsart:Operating Mode",
        ]
    );
    assert_eq!(
        render_document(&done.document).unwrap(),
        "\
esphome:
  name: heatingpump
wifi:
  ssid: home
  password: !secret wifi_password
sensor:
- platform: custom
  name: Outdoor Temperature
  update_interval: 60
- platform: custom
  name: Boiler Temperature
  accuracy: 0.5
button:
- name: Restart
text_sensor:
- name: Operating Mode
  id: mode
"
    );
}

#[test]
fn end_to_end_missing_name_writes_nothing() {
    let table = load_translation_json(r#"[{"Temp":"Temperature"}]"#).unwrap();
    let document = parse_document("sensor:\n- name: Pressure\n").unwrap();
    assert_eq!(
        translate(document, &table),
        Err(RunError::MissingTranslation {
            field: "sensor".to_string(),
            name: "Pressure".to_string()
        })
    );
}

#[test]
fn end_to_end_bad_inputs_are_told_apart() {
    assert!(matches!(
        load_translation_json("{not json"),
        Err(RunError::MappingSource { .. })
    ));
    assert!(matches!(parse_document("a: [1, 2"), Err(RunError::Document { .. })));
}

#[test]
fn end_to_end_structure_survives_writing() {
    let table = load_translation_json(r#"[{"a": "A", "b": "B"}, {"c": "C"}]"#).unwrap();
    let input = "\
substitutions:
  device: pump
  levels: [1, 2.5, low]
api:
  encryption:
    key: !secret api_key
sensor:
- name: a
  id: first
- id: second
- name: b
button:
- name: c
ota: null
";
    let before = parse_document(input).unwrap();
    let done = translate(before.clone(), &table).unwrap();
    let after = parse_document(&render_document(&done.document).unwrap()).unwrap();
    let (Node::Mapping(was), Node::Mapping(is)) = (&before, &after) else {
        panic!("the document is no mapping");
    };
    assert_eq!(was.len(), is.len());
    for (old, new) in was.iter().zip(is.iter()) {
        assert_eq!(old.0, new.0);
    }
    for kept in [0, 1, 4] {
        assert_eq!(was[kept], is[kept]);
    }
    for section in [2, 3] {
        let (Node::Sequence(old), Node::Sequence(new)) = (&was[section].1, &is[section].1) else {
            panic!("a section is no list");
        };
        assert_eq!(old.len(), new.len());
    }
    assert_eq!(
        is[2].1,
        Node::Sequence(vec![
            Node::Mapping(vec![(string("name"), string("A")), (string("id"), string("first"))]),
            Node::Mapping(vec![(string("id"), string("second"))]),
            Node::Mapping(vec![(string("name"), string("B"))]),
        ])
    );
    assert_eq!(is[3].1, Node::Sequence(vec![Node::Mapping(vec![(string("name"), string("C"))])]));
}
