use copy_sync::codec::CodecError;
use copy_sync::envelope::{deserialize_notification, serialize_notification, ChangeNotification};

fn text_notification(s: &str) -> ChangeNotification {
    ChangeNotification::Text { content: s.as_bytes().to_vec() }
}

#[test]
fn serialize_text_exact_wire_form() {
    let bytes = serialize_notification(&text_notification("hello"));
    let s = String::from_utf8(bytes).unwrap();
    assert_eq!(s, "{\"payload\":{\"Text\":{\"content\":\"hello\"}}}");
}

#[test]
fn serialize_image_exact_wire_form() {
    let bytes = serialize_notification(&ChangeNotification::Image { width: 2, height: 2 });
    let s = String::from_utf8(bytes).unwrap();
    assert_eq!(s, "{\"payload\":{\"Image\":{\"width\":2,\"height\":2}}}");
}

#[test]
fn round_trip_text_plain() {
    let n = text_notification("hello world");
    let bytes = serialize_notification(&n);
    assert_eq!(deserialize_notification(&bytes).unwrap(), n);
}

#[test]
fn round_trip_text_empty() {
    let n = text_notification("");
    let bytes = serialize_notification(&n);
    assert_eq!(deserialize_notification(&bytes).unwrap(), n);
}

#[test]
fn round_trip_text_with_escapes() {
    let n = text_notification("a\"b\\c\nd\te\u{1}f");
    let bytes = serialize_notification(&n);
    assert_eq!(deserialize_notification(&bytes).unwrap(), n);
}

#[test]
fn round_trip_text_multibyte_utf8() {
    let n = text_notification("héllo wörld — ☃");
    let bytes = serialize_notification(&n);
    assert_eq!(deserialize_notification(&bytes).unwrap(), n);
}

#[test]
fn round_trip_image_small() {
    let n = ChangeNotification::Image { width: 2, height: 2 };
    let bytes = serialize_notification(&n);
    assert_eq!(deserialize_notification(&bytes).unwrap(), n);
}

#[test]
fn round_trip_image_extreme_dimensions() {
    let n = ChangeNotification::Image { width: u64::MAX, height: 0 };
    let bytes = serialize_notification(&n);
    assert_eq!(deserialize_notification(&bytes).unwrap(), n);
}

#[test]
fn deserialize_rejects_empty() {
    let bytes: Vec<u8> = Vec::new();
    assert_eq!(deserialize_notification(&bytes), Err(CodecError::MalformedEnvelope));
}

#[test]
fn deserialize_rejects_unknown_tag() {
    let bytes = b"{\"payload\":{\"Blah\":{\"content\":\"x\"}}}".to_vec();
    assert_eq!(deserialize_notification(&bytes), Err(CodecError::MalformedEnvelope));
}

#[test]
fn deserialize_rejects_trailing_garbage() {
    let bytes = b"{\"payload\":{\"Text\":{\"content\":\"x\"}}} ".to_vec();
    assert_eq!(deserialize_notification(&bytes), Err(CodecError::MalformedEnvelope));
}

#[test]
fn deserialize_rejects_leading_zero_number() {
    let bytes = b"{\"payload\":{\"Image\":{\"width\":01,\"height\":2}}}".to_vec();
    assert_eq!(deserialize_notification(&bytes), Err(CodecError::MalformedEnvelope));
}

#[test]
fn deserialize_rejects_number_overflow() {
    let bytes = b"{\"payload\":{\"Image\":{\"width\":18446744073709551616,\"height\":2}}}".to_vec();
    assert_eq!(deserialize_notification(&bytes), Err(CodecError::MalformedEnvelope));
}

#[test]
fn deserialize_rejects_unterminated_string() {
    let bytes = b"{\"payload\":{\"Text\":{\"content\":\"x".to_vec();
    assert_eq!(deserialize_notification(&bytes), Err(CodecError::MalformedEnvelope));
}

#[test]
fn wire_form_is_json_readable_by_serde() {
    let bytes = serialize_notification(&text_notification("a\"b\\c\nd"));
    let v: serde_json::Value = serde_json::from_slice(&bytes).unwrap();
    assert_eq!(v["payload"]["Text"]["content"], "a\"b\\c\nd");

    let bytes = serialize_notification(&ChangeNotification::Image { width: 640, height: 480 });
    let v: serde_json::Value = serde_json::from_slice(&bytes).unwrap();
    assert_eq!(v["payload"]["Image"]["width"], 640);
    assert_eq!(v["payload"]["Image"]["height"], 480);
}

#[test]
fn serde_emitted_envelope_is_accepted() {
    let v: serde_json::Value =
        serde_json::from_str("{\"payload\":{\"Text\":{\"content\":\"plain text\"}}}").unwrap();
    let emitted = serde_json::to_string(&v).unwrap();
    let n = deserialize_notification(&emitted.into_bytes()).unwrap();
    assert_eq!(n, text_notification("plain text"));
}
