use neuroncore::industrial::{extract_i64, extract_str, parse_i64_text, tag_text, value_text, ToolEvent};

#[test]
fn string_field_of_a_record_line() {
    let line = r#"{"type":"tool_event","ts":42,"tool_id":"T7","event_type":"change"}"#;
    assert_eq!(extract_str(line, "type").as_deref(), Some("tool_event"));
    assert_eq!(extract_str(line, "tool_id").as_deref(), Some("T7"));
    assert_eq!(extract_str(line, "missing"), None);
    assert_eq!(extract_str(line, "ts"), None);
}

#[test]
fn string_field_after_white_space() {
    let line = r#"{"program":   "P 1"}"#;
    assert_eq!(extract_str(line, "program").as_deref(), Some("P 1"));
}

#[test]
fn unterminated_string_field_is_none() {
    assert_eq!(extract_str(r#"{"a":"open"#, "a"), None);
}

#[test]
fn integer_fields() {
    let line = r#"{"ts": 1700000000 ,"neg":-12}"#;
    assert_eq!(extract_i64(line, "ts"), Some(1700000000));
    assert_eq!(extract_i64(line, "neg"), Some(-12));
    assert_eq!(extract_i64(line, "none"), None);
    assert_eq!(extract_i64(r#"{"x":null}"#, "x"), None);
}

#[test]
fn raw_value_text_is_trimmed() {
    assert_eq!(value_text(r#"{"v": 1.5 }"#, "v").as_deref(), Some("1.5"));
    assert_eq!(value_text(r#"{"v":null,"w":2}"#, "v").as_deref(), Some("null"));
}

#[test]
fn i64_reading_matches_std() {
    for s in ["0", "+7", "-0", "9223372036854775807", "-9223372036854775808", "12a", "", "-", "+", "9223372036854775808", "-9223372036854775809", " 1", "007"] {
        assert_eq!(parse_i64_text(s), s.parse::<i64>().ok(), "{s}");
    }
}

#[test]
fn xml_tag_text() {
    let xml = "<Doc><Timestamp> 123 </Timestamp><Program>PRG1</Program><Empty>  </Empty></Doc>";
    assert_eq!(tag_text(xml, "Timestamp").as_deref(), Some("123"));
    assert_eq!(tag_text(xml, "Program").as_deref(), Some("PRG1"));
    assert_eq!(tag_text(xml, "Empty").as_deref(), Some(""));
    assert_eq!(tag_text(xml, "Feedrate"), None);
    assert_eq!(tag_text("<A>x", "A"), None);
}

#[test]
fn tool_event_record() {
    let e = ToolEvent { ts: 1, tool_id: Some("T1".to_string()), event_type: "wear".to_string() };
    assert_eq!(e.clone(), e);
}
