use copyright_tree::key_value::{
    KVParser, KeyValuePair, ParsedLine, Record, RecordError, SPDXParsePolicy, TagValueParsePolicy,
    TrivialParsePolicy,
};

fn pair(key: &str, value: &str) -> KeyValuePair {
    KeyValuePair { key: key.to_string(), value: value.to_string() }
}

#[test]
fn key_value_parser_basics() {
    fn test_parser<P: TagValueParsePolicy>(mut parser: KVParser<P>) {
        assert_eq!(
            parser.process_line("key: value").unwrap().into_inner().unwrap(),
            KeyValuePair { key: "key".to_string(), value: "value".to_string() }
        );
    }
    let parser: KVParser<TrivialParsePolicy> = KVParser::default();
    test_parser(parser);

    let parser: KVParser<SPDXParsePolicy> = KVParser::default();
    test_parser(parser);
}

#[test]
fn key_value_parser_trim_same_line() {
    let mut parser: KVParser<SPDXParsePolicy> = KVParser::default();
    assert_eq!(
        parser.process_line("key: <text>value</text>").unwrap().into_inner().unwrap(),
        KeyValuePair { key: "key".to_string(), value: "value".to_string() }
    );
}

#[test]
fn key_value_parser_long_value() {
    let mut parser: KVParser<SPDXParsePolicy> = KVParser::default();
    assert!(parser.process_line("key: <text>value").unwrap().into_inner().is_none());

    assert_eq!(
        parser.process_line("value</text>").unwrap().into_inner().unwrap(),
        KeyValuePair {
            key: "key".to_string(),
            value: "value
value"
                .to_string(),
        }
    );
}

#[test]
fn parser_counts_lines_and_rejects_value_lines() {
    let mut parser: KVParser<TrivialParsePolicy> = KVParser::new(TrivialParsePolicy {});
    let out = parser.process_line("").unwrap();
    assert_eq!(out.line_number, 1);
    assert!(out.into_inner().is_none());
    match parser.process_line("no delimiter here") {
        Err(RecordError::UnexpectedValueLine(l)) => assert_eq!(l, "no delimiter here"),
        other => panic!("unexpected {other:?}"),
    }
    assert_eq!(parser.process_line("a: b: c").unwrap().line_number, 3);
}

#[test]
fn parsed_lines() {
    assert!(matches!(ParsedLine::from_line("   "), ParsedLine::RecordDelimeter));
    assert!(matches!(ParsedLine::from_line("text"), ParsedLine::ValueOnly(_)));
    let kv = ParsedLine::from_line("key: value: more");
    assert!(kv.is_kv_pair());
    assert_eq!(kv.pair(), Some(pair("key", "value: more")));
    assert_eq!(ParsedLine::from_line("x").pair(), None);
}

#[test]
fn record_lookups() {
    let mut record = Record::default();
    record.push_field(pair("A", "1"));
    record.push_field(pair("B", "2"));
    record.push_field(pair("A", "3"));
    assert_eq!(record.count_fields_with_key("A"), 2);
    assert_eq!(record.values_for_key("A"), vec!["1".to_string(), "3".to_string()]);
    assert_eq!(record.value_for_key("B").unwrap(), Some("2".to_string()));
    assert_eq!(record.value_for_key("C").unwrap(), None);
    assert!(matches!(record.value_for_key("A"), Err(RecordError::WantedAtMostOneFoundMore(_, 2))));
    assert_eq!(record.value_for_required_key("B").unwrap(), "2");
    assert!(matches!(record.value_for_required_key("C"), Err(RecordError::MissingField(_))));
    assert!(matches!(record.value_for_required_key("A"), Err(RecordError::WantedOneFoundMore(_, 2))));
}
