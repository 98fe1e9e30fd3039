use video_preview::json::{parse_document, JsonValue};

#[test]
fn scalars_are_read() {
    assert!(matches!(parse_document("null"), Some(JsonValue::Null)));
    assert!(matches!(parse_document("true"), Some(JsonValue::Bool(true))));
    assert!(matches!(parse_document(" false "), Some(JsonValue::Bool(false))));
    assert!(matches!(parse_document("1920"), Some(JsonValue::Number(Some(1920)))));
    assert!(matches!(
        parse_document("18446744073709551615"),
        Some(JsonValue::Number(Some(u64::MAX)))
    ));
    match parse_document("\"h264\"") {
        Some(JsonValue::String(text)) => assert_eq!(text, "h264"),
        other => panic!("{:?}", other),
    }
    match parse_document("\"a\\u00e9\\n\"") {
        Some(JsonValue::String(text)) => assert_eq!(text, "a\u{e9}\n"),
        other => panic!("{:?}", other),
    }
}

#[test]
fn numbers_that_are_no_unsigned_integers_hold_nothing() {
    for text in ["-1", "1.5", "1e3", "-0.0", "18446744073709551616"] {
        assert!(matches!(parse_document(text), Some(JsonValue::Number(None))), "{:?}", text);
    }
}

#[test]
fn what_is_no_document_is_refused() {
    for text in ["", "   ", "{", "[1,", "{\"a\":}", "nul", "1 2", "{'a':1}", "[1] x"] {
        assert!(parse_document(text).is_none(), "{:?}", text);
    }
}

#[test]
fn arrays_keep_their_order() {
    let document = parse_document("[3, \"x\", null, [true]]").unwrap();
    let items = document.elements().unwrap();
    assert_eq!(items.len(), 4);
    assert_eq!(items[0].unsigned(), Some(3));
    assert_eq!(items[1].text(), Some("x"));
    assert!(matches!(items[2], JsonValue::Null));
    assert_eq!(items[3].elements().unwrap().len(), 1);
    assert!(document.member("0").is_none());
    assert!(document.text().is_none());
}

#[test]
fn members_are_found_by_name() {
    let document =
        parse_document("{\"format\": {\"duration\": \"12.5\", \"size\": 7}, \"b\": []}").unwrap();
    let format = document.member("format").unwrap();
    assert_eq!(format.member("duration").unwrap().text(), Some("12.5"));
    assert_eq!(format.member("size").unwrap().unsigned(), Some(7));
    assert!(format.member("bit_rate").is_none());
    assert!(format.member("Duration").is_none());
    assert!(format.member("").is_none());
    assert_eq!(document.member("b").unwrap().elements().unwrap().len(), 0);
    assert!(document.elements().is_none());
    assert!(document.unsigned().is_none());
}

#[test]
fn the_first_of_several_members_with_one_name_is_found() {
    let members = vec![
        ("a".to_string(), JsonValue::Number(Some(1))),
        ("b".to_string(), JsonValue::Number(Some(2))),
        ("a".to_string(), JsonValue::Number(Some(3))),
    ];
    let object = JsonValue::Object(members);
    assert_eq!(object.member("a").unwrap().unsigned(), Some(1));
    assert_eq!(object.member("b").unwrap().unsigned(), Some(2));
    assert!(object.member("c").is_none());
}

#[test]
fn a_repeated_name_in_a_text_keeps_its_last_value() {
    let document = parse_document("{\"a\": 1, \"a\": 2}").unwrap();
    assert_eq!(document.member("a").unwrap().unsigned(), Some(2));
    match document {
        JsonValue::Object(members) => assert_eq!(members.len(), 1),
        other => panic!("{:?}", other),
    }
}

#[test]
fn accessors_refuse_other_kinds() {
    let text = JsonValue::String("12".to_string());
    assert_eq!(text.unsigned(), None);
    assert!(text.elements().is_none());
    assert!(text.member("a").is_none());
    let number = JsonValue::Number(Some(12));
    assert_eq!(number.text(), None);
    assert_eq!(JsonValue::Number(None).unsigned(), None);
    assert_eq!(JsonValue::Null.text(), None);
    assert_eq!(JsonValue::Bool(true).unsigned(), None);
}

#[test]
fn deep_documents_are_copied_whole() {
    let document = parse_document("{\"a\": [{\"b\": [[{\"c\": \"deep\"}]]}]}").unwrap();
    let inner = &document.member("a").unwrap().elements().unwrap()[0];
    let list = &inner.member("b").unwrap().elements().unwrap()[0];
    let last = &list.elements().unwrap()[0];
    assert_eq!(last.member("c").unwrap().text(), Some("deep"));
}
