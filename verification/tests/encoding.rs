use datadog_logs::encoding::{flat_bytes, Encoding, EncodingStrategy, FieldRules};
use datadog_logs::event::{name_in, Field, FieldValue, LogEvent};
use datadog_logs::json::{field_bytes, frame, member_bytes, record_bytes, value_bytes};
use datadog_logs::text::{
    append_bytes, append_joined, decimal_string, push_decimal, push_decimal_bytes,
    push_boolean_bytes, push_integer_bytes, str_eq,
};

fn text(s: &str) -> FieldValue {
    FieldValue::Text(s.to_string())
}

fn sample_event() -> LogEvent {
    let mut e = LogEvent::new();
    e.insert("message".to_string(), text("hello"));
    e.insert("timestamp".to_string(), text("2021-03-01T10:00:00Z"));
    e.insert("host".to_string(), text("web-1"));
    e.insert("status".to_string(), FieldValue::Integer(200));
    e
}

#[test]
fn decimal_numerals() {
    assert_eq!(decimal_string(0), "0");
    assert_eq!(decimal_string(7), "7");
    assert_eq!(decimal_string(10), "10");
    assert_eq!(decimal_string(1234), "1234");
    assert_eq!(decimal_string(u64::MAX), "18446744073709551615");
    let mut s = String::from("n=");
    push_decimal(&mut s, 905);
    assert_eq!(s, "n=905");
}

#[test]
fn decimal_bytes_and_integers() {
    let mut out = b"x".to_vec();
    push_decimal_bytes(&mut out, 120);
    assert_eq!(out, b"x120".to_vec());
    let mut out = Vec::new();
    push_integer_bytes(&mut out, -45);
    assert_eq!(out, b"-45".to_vec());
    let mut out = Vec::new();
    push_integer_bytes(&mut out, i64::MIN);
    assert_eq!(out, b"-9223372036854775808".to_vec());
    let mut out = Vec::new();
    push_integer_bytes(&mut out, i64::MAX);
    assert_eq!(out, b"9223372036854775807".to_vec());
    let mut out = Vec::new();
    push_integer_bytes(&mut out, 0);
    assert_eq!(out, b"0".to_vec());
}

#[test]
fn strings_are_compared_and_bytes_appended() {
    assert!(str_eq("key", "key"));
    assert!(!str_eq("key", "Key"));
    assert!(!str_eq("key", "keys"));
    let mut out = b"ab".to_vec();
    append_bytes(&mut out, b"cd");
    assert_eq!(out, b"abcd".to_vec());
    push_boolean_bytes(&mut out, true);
    push_boolean_bytes(&mut out, false);
    assert_eq!(out, b"abcdtruefalse".to_vec());
}

#[test]
fn rows_are_joined_with_a_separator() {
    let rows = vec![b"a".to_vec(), b"bc".to_vec(), b"".to_vec(), b"d".to_vec()];
    let mut out = b">".to_vec();
    append_joined(&mut out, &rows, Some(b','));
    assert_eq!(out, b">a,bc,,d".to_vec());
    let mut out = Vec::new();
    append_joined(&mut out, &rows, None);
    assert_eq!(out, b"abcd".to_vec());
    let mut out = Vec::new();
    append_joined(&mut out, &Vec::new(), Some(b','));
    assert_eq!(out, Vec::<u8>::new());
}

#[test]
fn json_framing() {
    assert_eq!(frame(b'[', &vec![], b']'), b"[]".to_vec());
    assert_eq!(frame(b'{', &vec![b"\"a\":1".to_vec()], b'}'), b"{\"a\":1}".to_vec());
    assert_eq!(frame(b'[', &vec![b"1".to_vec(), b"{}".to_vec()], b']'), b"[1,{}]".to_vec());
    assert_eq!(member_bytes(b"\"a\"", b"true"), b"\"a\":true".to_vec());
}

#[test]
fn json_values() {
    assert_eq!(value_bytes(&text("hi")), b"\"hi\"".to_vec());
    assert_eq!(value_bytes(&text("a\"b\\c\nd")), b"\"a\\\"b\\\\c\\nd\"".to_vec());
    assert_eq!(value_bytes(&text("\u{e9}t\u{e9}")), "\"\u{e9}t\u{e9}\"".as_bytes().to_vec());
    assert_eq!(value_bytes(&FieldValue::Integer(-12)), b"-12".to_vec());
    assert_eq!(value_bytes(&FieldValue::Boolean(true)), b"true".to_vec());
    assert_eq!(value_bytes(&FieldValue::Boolean(false)), b"false".to_vec());
    assert_eq!(value_bytes(&FieldValue::Null), b"null".to_vec());
    let field = Field { name: "a\tb".to_string(), value: FieldValue::Integer(3) };
    assert_eq!(field_bytes(&field), b"\"a\\tb\":3".to_vec());
}

#[test]
fn json_record_keeps_field_order() {
    let mut e = LogEvent::new();
    assert_eq!(record_bytes(&e), b"{}".to_vec());
    e.insert("b".to_string(), FieldValue::Integer(1));
    e.insert("a".to_string(), FieldValue::Boolean(false));
    e.insert("c".to_string(), FieldValue::Null);
    e.insert("d".to_string(), text("x"));
    assert_eq!(record_bytes(&e), b"{\"b\":1,\"a\":false,\"c\":null,\"d\":\"x\"}".to_vec());
    let parsed: serde_json::Value = serde_json::from_slice(&record_bytes(&e)).unwrap();
    assert_eq!(parsed.get("d").unwrap().as_str(), Some("x"));
    assert_eq!(parsed.get("b").unwrap().as_i64(), Some(1));
}

#[test]
fn event_fields_are_found_replaced_and_removed() {
    let mut e = sample_event();
    assert_eq!(e.get("host"), Some(&text("web-1")));
    assert_eq!(e.get("nothing"), None);
    e.insert("host".to_string(), text("web-2"));
    assert_eq!(e.fields.len(), 4);
    assert_eq!(e.fields[3].name, "host");
    assert_eq!(e.get("host"), Some(&text("web-2")));
    assert_eq!(e.take("status"), Some(FieldValue::Integer(200)));
    assert_eq!(e.take("status"), None);
    assert_eq!(e.fields.len(), 3);
    e.rename("message", "msg");
    assert_eq!(e.get("message"), None);
    assert_eq!(e.get("msg"), Some(&text("hello")));
    let before = e.clone();
    e.rename("absent", "other");
    assert_eq!(e, before);
}

#[test]
fn event_take_removes_every_field_of_the_name() {
    let mut e = LogEvent::new();
    e.fields.push(Field { name: "a".to_string(), value: FieldValue::Integer(1) });
    e.fields.push(Field { name: "b".to_string(), value: FieldValue::Integer(2) });
    e.fields.push(Field { name: "a".to_string(), value: FieldValue::Integer(3) });
    assert_eq!(e.get("a"), Some(&FieldValue::Integer(1)));
    assert_eq!(e.take("a"), Some(FieldValue::Integer(1)));
    assert_eq!(e.fields.len(), 1);
    assert_eq!(e.fields[0].name, "b");
}

#[test]
fn events_with_a_name_held_twice_are_not_well_formed() {
    assert!(LogEvent::new().is_wf());
    assert!(LogEvent::from_message("m").is_wf());
    assert!(sample_event().is_wf());
    let mut e = sample_event();
    e.fields.push(Field { name: "host".to_string(), value: FieldValue::Null });
    assert!(!e.is_wf());
    e.insert("host".to_string(), text("again"));
    assert!(e.is_wf());
    let mut twice = LogEvent::new();
    twice.fields.push(Field { name: "a".to_string(), value: FieldValue::Integer(1) });
    twice.fields.push(Field { name: "a".to_string(), value: FieldValue::Integer(1) });
    assert!(!twice.is_wf());
    twice.rename("a", "b");
    assert!(twice.is_wf());
    assert_eq!(twice.fields.len(), 1);
}

#[test]
fn separate_hands_out_what_leaves() {
    let names = vec!["host".to_string(), "message".to_string()];
    let mut e = sample_event();
    let gone = e.separate(&names, true);
    assert_eq!(e.fields.iter().map(|f| f.name.as_str()).collect::<Vec<_>>(), vec!["message", "host"]);
    assert_eq!(gone.iter().map(|f| f.name.as_str()).collect::<Vec<_>>(), vec!["timestamp", "status"]);
    let mut e = sample_event();
    let gone = e.separate(&names, false);
    assert_eq!(e.fields.iter().map(|f| f.name.as_str()).collect::<Vec<_>>(), vec!["timestamp", "status"]);
    assert_eq!(gone.iter().map(|f| f.name.as_str()).collect::<Vec<_>>(), vec!["message", "host"]);
    assert_eq!(gone[1].value, text("web-1"));
}

#[test]
fn event_projection() {
    let names = vec!["host".to_string(), "status".to_string()];
    assert!(name_in(&names, "host"));
    assert!(!name_in(&names, "message"));
    let mut kept = sample_event();
    kept.project(&names, true);
    assert_eq!(kept.fields.len(), 2);
    assert_eq!(kept.fields[0].name, "host");
    assert_eq!(kept.fields[1].name, "status");
    let mut dropped = sample_event();
    dropped.project(&names, false);
    assert_eq!(dropped.fields.len(), 2);
    assert_eq!(dropped.fields[0].name, "message");
    assert_eq!(dropped.fields[1].name, "timestamp");
}

#[test]
fn field_rules_apply_only_then_except() {
    let rules = FieldRules {
        only_fields: Some(vec!["message".to_string(), "host".to_string()]),
        except_fields: Some(vec!["host".to_string()]),
    };
    let mut e = sample_event();
    rules.apply(&mut e);
    assert_eq!(e.fields.len(), 1);
    assert_eq!(e.fields[0].name, "message");
    let mut e = sample_event();
    FieldRules::none().apply(&mut e);
    assert_eq!(e, sample_event());
}

#[test]
fn structured_encoding_renames_well_known_fields() {
    let strategy = EncodingStrategy::new(Encoding::Structured, "atoken".to_string());
    let fragment = strategy.encode(sample_event()).unwrap();
    assert_eq!(fragment.key, "atoken");
    assert_eq!(fragment.token, 0);
    assert_eq!(
        fragment.payload,
        b"{\"status\":200,\"message\":\"hello\",\"date\":\"2021-03-01T10:00:00Z\",\"host\":\"web-1\"}"
            .to_vec()
    );
}

#[test]
fn structured_encoding_of_a_bare_message() {
    let strategy = EncodingStrategy::new(Encoding::Structured, "atoken".to_string());
    let fragment = strategy.encode(LogEvent::from_message("hi")).unwrap();
    assert_eq!(fragment.payload, b"{\"message\":\"hi\"}".to_vec());
    let empty = strategy.encode(LogEvent::new()).unwrap();
    assert_eq!(empty.payload, b"{}".to_vec());
}

#[test]
fn structured_encoding_applies_field_rules_after_renaming() {
    let mut strategy = EncodingStrategy::new(Encoding::Structured, "atoken".to_string());
    strategy.rules.except_fields = Some(vec!["date".to_string(), "status".to_string()]);
    let fragment = strategy.encode(sample_event()).unwrap();
    assert_eq!(fragment.payload, b"{\"message\":\"hello\",\"host\":\"web-1\"}".to_vec());
    strategy.rules.except_fields = None;
    strategy.rules.only_fields = Some(vec!["timestamp".to_string(), "message".to_string()]);
    let fragment = strategy.encode(sample_event()).unwrap();
    assert_eq!(fragment.payload, b"{\"message\":\"hello\"}".to_vec());
}

#[test]
fn flat_encoding_is_the_message_and_a_newline() {
    let strategy = EncodingStrategy::new(Encoding::Flat, "atoken".to_string());
    let fragment = strategy.encode(sample_event()).unwrap();
    assert_eq!(fragment.payload, b"hello\n".to_vec());
    assert_eq!(fragment.key, "atoken");
    let accented = strategy.encode(LogEvent::from_message("caf\u{e9}")).unwrap();
    assert_eq!(accented.payload, "caf\u{e9}\n".as_bytes().to_vec());
}

#[test]
fn flat_encoding_skips_an_empty_line() {
    let strategy = EncodingStrategy::new(Encoding::Flat, "atoken".to_string());
    assert_eq!(strategy.encode(LogEvent::from_message("")), None);
    assert_eq!(strategy.encode(LogEvent::new()), None);
    let mut e = LogEvent::new();
    e.insert("message".to_string(), FieldValue::Null);
    assert_eq!(strategy.encode(e), None);
    let mut hidden = EncodingStrategy::new(Encoding::Flat, "atoken".to_string());
    hidden.rules.except_fields = Some(vec!["message".to_string()]);
    assert_eq!(hidden.encode(sample_event()), None);
}

#[test]
fn flat_text_of_each_kind_of_value() {
    assert_eq!(flat_bytes(&text("abc")), b"abc".to_vec());
    assert_eq!(flat_bytes(&FieldValue::Integer(-7)), b"-7".to_vec());
    assert_eq!(flat_bytes(&FieldValue::Boolean(true)), b"true".to_vec());
    assert_eq!(flat_bytes(&FieldValue::Boolean(false)), b"false".to_vec());
    assert_eq!(flat_bytes(&FieldValue::Null), Vec::<u8>::new());
    let strategy = EncodingStrategy::new(Encoding::Flat, "atoken".to_string());
    let mut e = LogEvent::new();
    e.insert("message".to_string(), FieldValue::Integer(42));
    assert_eq!(strategy.encode(e).unwrap().payload, b"42\n".to_vec());
}

#[test]
fn partition_key_is_the_events_own_or_the_default() {
    for kind in [Encoding::Structured, Encoding::Flat] {
        let strategy = EncodingStrategy::new(kind, "atoken".to_string());
        let mut own = LogEvent::from_message("m");
        own.api_key = Some("pkc".to_string());
        assert_eq!(strategy.encode(own).unwrap().key, "pkc");
        assert_eq!(strategy.encode(LogEvent::from_message("m")).unwrap().key, "atoken");
    }
}

#[test]
fn encoding_the_same_event_again_gives_the_same_fragment() {
    for kind in [Encoding::Structured, Encoding::Flat] {
        let strategy = EncodingStrategy::new(kind, "atoken".to_string());
        let mut e = sample_event();
        e.api_key = Some("vvo".to_string());
        let first = strategy.encode(e.clone());
        let second = strategy.encode(e.clone());
        assert_eq!(first, second);
        assert!(first.is_some());
    }
}

#[test]
fn custom_schema_names_are_renamed() {
    let mut strategy = EncodingStrategy::new(Encoding::Structured, "atoken".to_string());
    strategy.schema.message_key = "msg".to_string();
    strategy.schema.host_key = "hostname".to_string();
    let mut e = LogEvent::new();
    e.insert("msg".to_string(), text("m"));
    e.insert("hostname".to_string(), text("h"));
    e.insert("host".to_string(), text("old"));
    let fragment = strategy.encode(e).unwrap();
    assert_eq!(fragment.payload, b"{\"message\":\"m\",\"host\":\"h\"}".to_vec());
}
