use config_translate::error::RunError;
use config_translate::source::load_translation_json;
use config_translate::yaml::parse_document;

#[test]
fn message_names_the_step_and_the_name() {
    let error = RunError::MissingTranslation { field: "sensor".to_string(), name: "Pressure".to_string() };
    assert_eq!(error.message(), "no translation for the name 'Pressure' in the list sensor");
    let error = RunError::NameNotString { field: "button".to_string() };
    assert_eq!(error.message(), "a name in the list button is not a string");
    let error = RunError::MappingSource { message: "x".to_string() };
    assert_eq!(error.message(), "the translations are not a list of string mappings: x");
    let error = RunError::Document { message: "y".to_string() };
    assert_eq!(error.message(), "the input is not a document: y");
    let error = RunError::Render { message: "z".to_string() };
    assert_eq!(error.message(), "the document cannot be written as text: z");
}

#[test]
fn message_carries_what_the_parser_said() {
    let error = load_translation_json(r#"[{"a": 1}]"#).err().unwrap();
    assert_eq!(
        error.message(),
        "the translations are not a list of string mappings: invalid type: integer `1`, expected a string at line 1 column 8"
    );
    let error = parse_document("a: 1\na: 2\n").unwrap_err();
    assert!(error.message().starts_with("the input is not a document: "));
    assert!(error.message().contains("duplicate entry"));
}

#[test]
fn errors_can_be_copied_and_compared() {
    let error = RunError::MissingTranslation { field: "sensor".to_string(), name: "a".to_string() };
    assert_eq!(error.clone(), error);
    assert_ne!(error, RunError::NameNotString { field: "sensor".to_string() });
}
