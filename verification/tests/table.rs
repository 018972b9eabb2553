use config_translate::error::RunError;
use config_translate::source::{load_translation_json, parse_mapping_source};
use config_translate::table::TranslationTable;

fn pair(key: &str, value: &str) -> (String, String) {
    (key.to_string(), value.to_string())
}

fn looked_up(table: &TranslationTable, key: &str) -> Option<String> {
    table.get(key).cloned()
}

#[test]
fn merge_order_later_source_wins() {
    let table = load_translation_json(r#"[{"a":"1"}, {"a":"2"}]"#).unwrap();
    assert_eq!(looked_up(&table, "a"), Some("2".to_string()));
}

#[test]
fn build_later_mapping_wins() {
    let table = TranslationTable::build(&vec![vec![pair("a", "1")], vec![pair("a", "2")]]);
    assert_eq!(looked_up(&table, "a"), Some("2".to_string()));
}

#[test]
fn build_later_pair_wins_within_a_mapping() {
    let table = TranslationTable::build(&vec![vec![pair("a", "1"), pair("b", "x"), pair("a", "3")]]);
    assert_eq!(looked_up(&table, "a"), Some("3".to_string()));
    assert_eq!(looked_up(&table, "b"), Some("x".to_string()));
}

#[test]
fn build_covers_the_union_of_the_mappings() {
    let table = TranslationTable::build(&vec![
        vec![pair("Außentemperatur", "Outdoor Temperature")],
        vec![],
        vec![pair("Kesseltemperatur", "Boiler Temperature"), pair("Pumpe", "Pump")],
    ]);
    assert_eq!(looked_up(&table, "Außentemperatur"), Some("Outdoor Temperature".to_string()));
    assert_eq!(looked_up(&table, "Kesseltemperatur"), Some("Boiler Temperature".to_string()));
    assert_eq!(looked_up(&table, "Pumpe"), Some("Pump".to_string()));
    assert!(table.contains_key("Pumpe"));
    assert!(!table.contains_key("Pump"));
    assert_eq!(looked_up(&table, "Pump"), None);
}

#[test]
fn build_of_nothing_is_empty() {
    let table = TranslationTable::build(&vec![]);
    assert!(!table.contains_key(""));
    assert!(!table.contains_key("a"));
    let table = load_translation_json("[]").unwrap();
    assert!(!table.contains_key("a"));
}

#[test]
fn new_table_has_no_key() {
    let table = TranslationTable::new();
    assert_eq!(table.get("a"), None);
    assert!(!table.contains_key("a"));
}

#[test]
fn insert_sets_and_replaces() {
    let mut table = TranslationTable::new();
    table.insert("a".to_string(), "1".to_string());
    table.insert("b".to_string(), "2".to_string());
    assert_eq!(looked_up(&table, "a"), Some("1".to_string()));
    table.insert("a".to_string(), "9".to_string());
    assert_eq!(looked_up(&table, "a"), Some("9".to_string()));
    assert_eq!(looked_up(&table, "b"), Some("2".to_string()));
}

#[test]
fn merge_keeps_what_the_mapping_does_not_name() {
    let mut table = TranslationTable::new();
    table.insert("a".to_string(), "1".to_string());
    table.insert("b".to_string(), "2".to_string());
    table.merge(&vec![pair("b", "3"), pair("c", "4")]);
    assert_eq!(looked_up(&table, "a"), Some("1".to_string()));
    assert_eq!(looked_up(&table, "b"), Some("3".to_string()));
    assert_eq!(looked_up(&table, "c"), Some("4".to_string()));
}

#[test]
fn keys_are_compared_exactly() {
    let table = load_translation_json(r#"[{"Temp":"Temperature"}]"#).unwrap();
    assert!(table.contains_key("Temp"));
    assert!(!table.contains_key("temp"));
    assert!(!table.contains_key("Temp "));
    assert!(!table.contains_key("Temperature"));
}

#[test]
fn mapping_source_is_read_in_order() {
    let source = parse_mapping_source(
        r#"[{"Außentemperatur": "Outdoor Temperature"}, {"Kesseltemperatur": "Boiler Temperature"}]"#,
    )
    .unwrap();
    assert_eq!(
        source,
        vec![
            vec![pair("Außentemperatur", "Outdoor Temperature")],
            vec![pair("Kesseltemperatur", "Boiler Temperature")],
        ]
    );
}

#[test]
fn mapping_source_with_several_pairs_in_one_mapping() {
    let mut source = parse_mapping_source(r#"[{"b": "2", "a": "1", "c": "3"}]"#).unwrap();
    assert_eq!(source.len(), 1);
    source[0].sort();
    assert_eq!(source[0], vec![pair("a", "1"), pair("b", "2"), pair("c", "3")]);
}

#[test]
fn repeated_key_in_one_object_keeps_the_last() {
    let table = load_translation_json(r#"[{"a": "1", "a": "2"}]"#).unwrap();
    assert_eq!(looked_up(&table, "a"), Some("2".to_string()));
}

#[test]
fn mapping_source_must_be_a_sequence() {
    assert!(matches!(
        load_translation_json(r#"{"a": "1"}"#),
        Err(RunError::MappingSource { .. })
    ));
    assert!(matches!(parse_mapping_source(r#""a""#), Err(RunError::MappingSource { .. })));
}

#[test]
fn mapping_source_must_hold_flat_string_mappings() {
    assert!(matches!(
        load_translation_json(r#"[{"a": 1}]"#),
        Err(RunError::MappingSource { .. })
    ));
    assert!(matches!(
        load_translation_json(r#"[{"a": {"b": "c"}}]"#),
        Err(RunError::MappingSource { .. })
    ));
    assert!(matches!(
        load_translation_json(r#"[["a", "b"]]"#),
        Err(RunError::MappingSource { .. })
    ));
}

#[test]
fn mapping_source_must_be_json() {
    match load_translation_json(r#"[{"a": "1"}"#) {
        Err(RunError::MappingSource { message }) => assert!(!message.is_empty()),
        _ => panic!("text that is cut short was read"),
    }
    assert!(matches!(load_translation_json(""), Err(RunError::MappingSource { .. })));
}
