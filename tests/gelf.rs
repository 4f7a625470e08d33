use delivery_core::event::Timestamp;
use delivery_core::gelf::{
    FieldValue, GelfDeserializerConfig, GelfError, GelfMessage, GelfValue, JsonKind,
};

fn message(extra: Vec<(&str, GelfValue)>) -> GelfMessage {
    GelfMessage {
        version: "1.1".to_string(),
        host: "example.org".to_string(),
        short_message: "foobar".to_string(),
        full_message: None,
        timestamp: None,
        level: None,
        facility: None,
        line: None,
        file: None,
        additional_fields: extra.into_iter().map(|(k, v)| (k.to_string(), v)).collect(),
    }
}

fn get<'a>(fields: &'a [(String, FieldValue)], key: &str) -> Option<&'a FieldValue> {
    fields.iter().find(|(k, _)| k == key).map(|(_, v)| v)
}

fn text(v: Option<&FieldValue>) -> Option<String> {
    match v {
        Some(FieldValue::Text(s)) => Some(s.clone()),
        _ => None,
    }
}

const NOW: Timestamp = Timestamp { secs: 42, nanos: 7 };

#[test]
fn gelf_deserialize_correctness() {
    let d = GelfDeserializerConfig.build();
    let m = GelfMessage {
        version: "1.1".to_string(),
        host: "example.org".to_string(),
        short_message: "A short message that helps you identify what is going on".to_string(),
        full_message: Some("Backtrace here\n\nmore stuff".to_string()),
        timestamp: Some(1385053862),
        level: Some(1),
        facility: Some("foo".to_string()),
        line: Some("42".to_string()),
        file: Some("/tmp/bar".to_string()),
        additional_fields: vec![
            ("_an.add-field_int".to_string(), GelfValue::Number("2001.1002".to_string())),
            ("_an.add-field_str".to_string(), GelfValue::Str("A Space Odyssey".to_string())),
        ],
    };
    let log = d.message_to_event(&m, NOW).unwrap();
    assert_eq!(text(get(&log, "version")), Some("1.1".to_string()));
    assert_eq!(text(get(&log, "host")), Some("example.org".to_string()));
    assert_eq!(
        text(get(&log, "message")),
        Some("A short message that helps you identify what is going on".to_string())
    );
    assert_eq!(text(get(&log, "full_message")), Some("Backtrace here\n\nmore stuff".to_string()));
    assert!(matches!(get(&log, "timestamp"), Some(FieldValue::Time(Timestamp { secs: 1385053862, nanos: 0 }))));
    assert!(matches!(get(&log, "level"), Some(FieldValue::Integer(1))));
    assert_eq!(text(get(&log, "facility")), Some("foo".to_string()));
    assert!(matches!(get(&log, "line"), Some(FieldValue::Number(s)) if s == "42"));
    assert_eq!(text(get(&log, "file")), Some("/tmp/bar".to_string()));
    assert!(matches!(get(&log, "_an.add-field_int"), Some(FieldValue::Number(s)) if s == "2001.1002"));
    assert_eq!(text(get(&log, "_an.add-field_str")), Some("A Space Odyssey".to_string()));
}

#[test]
fn gelf_deserializing_edge_cases() {
    let d = GelfDeserializerConfig.build();
    let log = d.message_to_event(&message(vec![]), NOW).unwrap();
    assert!(get(&log, "message").is_some());
    assert!(matches!(get(&log, "timestamp"), Some(FieldValue::Time(t)) if *t == NOW));
    let log = d.message_to_event(&message(vec![("_id", GelfValue::Str("S3creTz".to_string()))]), NOW).unwrap();
    assert!(get(&log, "_id").is_none());
}

#[test]
fn gelf_deserializing_err() {
    let d = GelfDeserializerConfig.build();
    assert_eq!(
        d.message_to_event(&message(vec![("_bad%key", GelfValue::Str("raboof".to_string()))]), NOW).unwrap_err(),
        GelfError::InvalidCharacters { index: 0 }
    );
    assert_eq!(
        d.message_to_event(&message(vec![("bad-key", GelfValue::Str("raboof".to_string()))]), NOW).unwrap_err(),
        GelfError::NotPrefixed { index: 0 }
    );
    assert_eq!(
        d.message_to_event(&message(vec![("_ok", GelfValue::Number("1".to_string())), ("_b", GelfValue::Bool(true))]), NOW)
            .unwrap_err(),
        GelfError::InvalidValueType { index: 1, kind: JsonKind::Boolean }
    );
    let mut m = message(vec![]);
    m.version = "1.0".to_string();
    assert_eq!(d.message_to_event(&m, NOW).unwrap_err(), GelfError::VersionMismatch);
}

#[test]
fn gelf_outputs_logs() {
    assert_eq!(GelfDeserializerConfig.output_type(), delivery_core::gelf::DataType::Log);
}
