use config_translate::document::{find_key, Node};
use config_translate::error::RunError;
use config_translate::table::TranslationTable;
use config_translate::translate::{translate, translate_fields, Replacement};
use serde_yaml::value::Tag;
use serde_yaml::Number;

fn s(text: &str) -> Node {
    Node::String(text.to_string())
}

fn map(entries: Vec<(&str, Node)>) -> Node {
    Node::Mapping(entries.into_iter().map(|(key, held)| (s(key), held)).collect())
}

fn seq(items: Vec<Node>) -> Node {
    Node::Sequence(items)
}

fn table_of(pairs: Vec<(&str, &str)>) -> TranslationTable {
    let mut table = TranslationTable::new();
    for (key, value) in pairs {
        table.insert(key.to_string(), value.to_string());
    }
    table
}

fn made(name: &str, translation: &str) -> Replacement {
    Replacement { name: name.to_string(), translation: translation.to_string() }
}

fn missing(field: &str, name: &str) -> RunError {
    RunError::MissingTranslation { field: field.to_string(), name: name.to_string() }
}

#[test]
fn full_coverage_translates_the_name_and_keeps_the_rest() {
    let table = table_of(vec![("Temp", "Temperature")]);
    let document = map(vec![("sensor", seq(vec![map(vec![("name", s("Temp")), ("unit", s("C"))])]))]);
    let done = translate(document, &table).unwrap();
    assert_eq!(
        done.document,
        map(vec![("sensor", seq(vec![map(vec![("name", s("Temperature")), ("unit", s("C"))])]))])
    );
    assert_eq!(done.replacements, vec![made("Temp", "Temperature")]);
}

#[test]
fn full_coverage_is_required() {
    let table = table_of(vec![("Temp", "Temperature")]);
    let document = map(vec![("sensor", seq(vec![map(vec![("name", s("Pressure"))])]))]);
    assert_eq!(translate(document, &table), Err(missing("sensor", "Pressure")));
}

#[test]
fn elements_without_a_name_are_unchanged() {
    let table = table_of(vec![("Temp", "Temperature")]);
    let document = map(vec![(
        "sensor",
        seq(vec![
            map(vec![("platform", s("dallas")), ("id", s("Temp"))]),
            map(vec![]),
            s("Temp"),
            Node::Null,
            seq(vec![map(vec![("name", s("nested"))])]),
            map(vec![("Name", s("Temp"))]),
        ]),
    )]);
    let done = translate(document.clone(), &table).unwrap();
    assert_eq!(done.document, document);
    assert_eq!(done.replacements, vec![]);
}

#[test]
fn structure_beside_the_sections_is_preserved() {
    let table = table_of(vec![("a", "A"), ("b", "B"), ("c", "C"), ("d", "D")]);
    let esphome = map(vec![("name", s("a")), ("board", s("esp32"))]);
    let wifi = map(vec![
        ("ssid", s("home")),
        ("password", Node::Tagged(Tag::new("secret"), Box::new(s("wifi_password")))),
        ("retries", Node::Number(Number::from(3u64))),
    ]);
    let logger = seq(vec![map(vec![("name", s("a"))]), Node::Bool(true), Node::Null]);
    let document = map(vec![
        ("esphome", esphome.clone()),
        ("sensor", seq(vec![map(vec![("name", s("a"))]), map(vec![("id", s("x"))]), map(vec![("name", s("b"))])])),
        ("wifi", wifi.clone()),
        ("button", seq(vec![map(vec![("name", s("c"))])])),
        ("text_sensor", seq(vec![map(vec![("id", s("y")), ("name", s("d"))])])),
        ("logger", logger.clone()),
    ]);
    let done = translate(document, &table).unwrap();
    assert_eq!(
        done.document,
        map(vec![
            ("esphome", esphome),
            ("sensor", seq(vec![map(vec![("name", s("A"))]), map(vec![("id", s("x"))]), map(vec![("name", s("B"))])])),
            ("wifi", wifi),
            ("button", seq(vec![map(vec![("name", s("C"))])])),
            ("text_sensor", seq(vec![map(vec![("id", s("y")), ("name", s("D"))])])),
            ("logger", logger),
        ])
    );
}

#[test]
fn a_second_pass_fails() {
    let table = table_of(vec![("Temp", "Temperature")]);
    let document = map(vec![("sensor", seq(vec![map(vec![("name", s("Temp"))])]))]);
    let once = translate(document, &table).unwrap();
    assert_eq!(translate(once.document, &table), Err(missing("sensor", "Temperature")));
}

#[test]
fn a_second_pass_succeeds_where_translations_are_keys() {
    let table = table_of(vec![("a", "b"), ("b", "c")]);
    let document = map(vec![("button", seq(vec![map(vec![("name", s("a"))])]))]);
    let once = translate(document, &table).unwrap();
    let twice = translate(once.document, &table).unwrap();
    assert_eq!(twice.document, map(vec![("button", seq(vec![map(vec![("name", s("c"))])]))]));
    assert_eq!(twice.replacements, vec![made("b", "c")]);
}

#[test]
fn sections_are_translated_in_their_fixed_order() {
    let table = table_of(vec![("t", "T"), ("b", "B"), ("s1", "S1"), ("s2", "S2")]);
    let document = map(vec![
        ("text_sensor", seq(vec![map(vec![("name", s("t"))])])),
        ("button", seq(vec![map(vec![("name", s("b"))])])),
        ("sensor", seq(vec![map(vec![("name", s("s1"))]), map(vec![("name", s("s2"))])])),
    ]);
    let done = translate(document, &table).unwrap();
    assert_eq!(
        done.replacements,
        vec![made("s1", "S1"), made("s2", "S2"), made("b", "B"), made("t", "T")]
    );
    assert_eq!(
        done.document,
        map(vec![
            ("text_sensor", seq(vec![map(vec![("name", s("T"))])])),
            ("button", seq(vec![map(vec![("name", s("B"))])])),
            ("sensor", seq(vec![map(vec![("name", s("S1"))]), map(vec![("name", s("S2"))])])),
        ])
    );
}

#[test]
fn the_first_failure_is_reported() {
    let table = table_of(vec![("known", "Known")]);
    let document = map(vec![
        ("button", seq(vec![map(vec![("name", s("third"))])])),
        (
            "sensor",
            seq(vec![
                map(vec![("name", s("known"))]),
                map(vec![("name", s("first"))]),
                map(vec![("name", s("second"))]),
            ]),
        ),
    ]);
    assert_eq!(translate(document, &table), Err(missing("sensor", "first")));
    let document = map(vec![
        ("text_sensor", seq(vec![map(vec![("name", s("late"))])])),
        ("button", seq(vec![map(vec![("name", s("early"))])])),
    ]);
    assert_eq!(translate(document, &table), Err(missing("button", "early")));
}

#[test]
fn a_name_that_is_no_string_is_an_error() {
    let table = table_of(vec![("1", "one")]);
    let number = map(vec![("sensor", seq(vec![map(vec![("name", Node::Number(Number::from(1u64)))])]))]);
    assert_eq!(
        translate(number, &table),
        Err(RunError::NameNotString { field: "sensor".to_string() })
    );
    let null = map(vec![("text_sensor", seq(vec![map(vec![("name", Node::Null)])]))]);
    assert_eq!(
        translate(null, &table),
        Err(RunError::NameNotString { field: "text_sensor".to_string() })
    );
    let list = map(vec![("button", seq(vec![map(vec![("name", seq(vec![s("1")]))])]))]);
    assert_eq!(
        translate(list, &table),
        Err(RunError::NameNotString { field: "button".to_string() })
    );
}

#[test]
fn an_absent_section_is_skipped() {
    let table = table_of(vec![("a", "A")]);
    let document = map(vec![("sensor", seq(vec![map(vec![("name", s("a"))])])), ("other", s("a"))]);
    let done = translate(document, &table).unwrap();
    assert_eq!(
        done.document,
        map(vec![("sensor", seq(vec![map(vec![("name", s("A"))])])), ("other", s("a"))])
    );
    let empty = map(vec![]);
    assert_eq!(translate(empty.clone(), &table).unwrap().document, empty);
}

#[test]
fn a_section_that_is_no_list_is_skipped() {
    let table = table_of(vec![("a", "A")]);
    let document = map(vec![
        ("sensor", map(vec![("name", s("zzz"))])),
        ("button", s("zzz")),
        ("text_sensor", Node::Tagged(Tag::new("include"), Box::new(seq(vec![map(vec![("name", s("zzz"))])])))),
    ]);
    let done = translate(document.clone(), &table).unwrap();
    assert_eq!(done.document, document);
    assert_eq!(done.replacements, vec![]);
}

#[test]
fn a_document_that_is_no_mapping_is_unchanged() {
    let table = table_of(vec![("a", "A")]);
    for document in [
        Node::Null,
        Node::Bool(false),
        s("sensor"),
        Node::Number(Number::from(7u64)),
        seq(vec![map(vec![("sensor", seq(vec![map(vec![("name", s("zzz"))])]))])]),
    ] {
        assert_eq!(translate(document.clone(), &table).unwrap().document, document);
    }
}

#[test]
fn only_top_level_sections_are_visited() {
    let table = table_of(vec![("a", "A")]);
    let document = map(vec![(
        "package",
        map(vec![("sensor", seq(vec![map(vec![("name", s("zzz"))])]))]),
    )]);
    assert_eq!(translate(document.clone(), &table).unwrap().document, document);
}

#[test]
fn tags_around_elements_names_and_documents_are_looked_through() {
    let table = table_of(vec![("a", "A")]);
    let tagged = |tag: &str, node: Node| Node::Tagged(Tag::new(tag), Box::new(node));
    let document = tagged(
        "doc",
        map(vec![(
            "sensor",
            seq(vec![tagged("outer", tagged("inner", map(vec![("name", tagged("str", s("a")))])))]),
        )]),
    );
    let done = translate(document, &table).unwrap();
    assert_eq!(
        done.document,
        tagged(
            "doc",
            map(vec![("sensor", seq(vec![tagged("outer", tagged("inner", map(vec![("name", s("A"))])))]))])
        )
    );
    assert_eq!(done.replacements, vec![made("a", "A")]);
}

#[test]
fn keys_that_are_no_plain_strings_do_not_count() {
    let table = table_of(vec![("a", "A")]);
    let document = Node::Mapping(vec![
        (Node::Tagged(Tag::new("t"), Box::new(s("sensor"))), seq(vec![map(vec![("name", s("zzz"))])])),
        (
            s("button"),
            seq(vec![Node::Mapping(vec![
                (Node::Tagged(Tag::new("t"), Box::new(s("name"))), s("zzz")),
                (Node::Null, s("zzz")),
            ])]),
        ),
    ]);
    assert_eq!(translate(document.clone(), &table).unwrap().document, document);
}

#[test]
fn the_first_of_two_equal_keys_counts() {
    let table = table_of(vec![("a", "A")]);
    let document = Node::Mapping(vec![
        (s("sensor"), seq(vec![Node::Mapping(vec![(s("name"), s("a")), (s("name"), s("zzz"))])])),
        (s("sensor"), seq(vec![map(vec![("name", s("zzz"))])])),
    ]);
    let done = translate(document, &table).unwrap();
    assert_eq!(
        done.document,
        Node::Mapping(vec![
            (s("sensor"), seq(vec![Node::Mapping(vec![(s("name"), s("A")), (s("name"), s("zzz"))])])),
            (s("sensor"), seq(vec![map(vec![("name", s("zzz"))])])),
        ])
    );
}

#[test]
fn an_empty_name_is_looked_up_like_any_other() {
    let document = map(vec![("sensor", seq(vec![map(vec![("name", s(""))])]))]);
    assert_eq!(
        translate(document.clone(), &table_of(vec![("", "unnamed")])).unwrap().document,
        map(vec![("sensor", seq(vec![map(vec![("name", s("unnamed"))])]))])
    );
    assert_eq!(translate(document, &table_of(vec![("a", "A")])), Err(missing("sensor", "")));
}

#[test]
fn an_empty_table_translates_only_documents_without_names() {
    let table = TranslationTable::new();
    let nameless = map(vec![("sensor", seq(vec![map(vec![("id", s("a"))])])), ("button", seq(vec![]))]);
    assert_eq!(translate(nameless.clone(), &table).unwrap().document, nameless);
    let named = map(vec![("button", seq(vec![map(vec![("name", s("a"))])]))]);
    assert_eq!(translate(named, &table), Err(missing("button", "a")));
}

#[test]
fn other_lists_can_be_named() {
    let table = table_of(vec![("a", "A"), ("b", "B")]);
    let document = map(vec![
        ("switch", seq(vec![map(vec![("name", s("a"))])])),
        ("sensor", seq(vec![map(vec![("name", s("b"))])])),
    ]);
    let fields = vec!["switch".to_string()];
    let done = translate_fields(document.clone(), &fields, &table).unwrap();
    assert_eq!(
        done.document,
        map(vec![
            ("switch", seq(vec![map(vec![("name", s("A"))])])),
            ("sensor", seq(vec![map(vec![("name", s("b"))])])),
        ])
    );
    assert_eq!(done.replacements, vec![made("a", "A")]);
    let none = translate_fields(document.clone(), &vec![], &table).unwrap();
    assert_eq!(none.document, document);
    assert_eq!(none.replacements, vec![]);
}

#[test]
fn a_list_named_twice_is_translated_twice() {
    let table = table_of(vec![("a", "b"), ("b", "c")]);
    let document = map(vec![("switch", seq(vec![map(vec![("name", s("a"))])]))]);
    let fields = vec!["switch".to_string(), "switch".to_string()];
    let done = translate_fields(document, &fields, &table).unwrap();
    assert_eq!(done.document, map(vec![("switch", seq(vec![map(vec![("name", s("c"))])]))]));
    assert_eq!(done.replacements, vec![made("a", "b"), made("b", "c")]);
}

#[test]
fn replacement_line_is_name_colon_translation() {
    assert_eq!(made("Außentemperatur", "Outdoor Temperature").line(), "Außentemperatur:Outdoor Temperature");
    assert_eq!(made("", "").line(), ":");
    assert_eq!(made("a:b", "c").line(), "a:b:c");
}

#[test]
fn find_key_gives_the_first_plain_string_key() {
    let entries = vec![
        (Node::Null, s("x")),
        (s("b"), s("x")),
        (s("a"), s("first")),
        (s("a"), s("second")),
    ];
    assert_eq!(find_key(&entries, &"a".to_string()), Some(2));
    assert_eq!(find_key(&entries, &"b".to_string()), Some(1));
    assert_eq!(find_key(&entries, &"c".to_string()), None);
    assert_eq!(find_key(&vec![], &"a".to_string()), None);
}

#[test]
fn clone_is_a_deep_copy() {
    let document = map(vec![
        ("sensor", seq(vec![map(vec![("name", s("a")), ("n", Node::Number(Number::from(-4i64)))])])),
        ("t", Node::Tagged(Tag::new("x"), Box::new(seq(vec![Node::Bool(true), Node::Null])))),
    ]);
    let copy = document.clone();
    assert_eq!(copy, document);
    let done = translate(copy, &table_of(vec![("a", "A")])).unwrap();
    assert_ne!(done.document, document);
}
