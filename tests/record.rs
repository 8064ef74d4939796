use kv_store::record::{decode, decode_field, Action, Decoded, FieldDecoded};

#[test]
fn put_record_bytes() {
    let bytes = Action::Put { key: "a".to_string(), val: "1".to_string() }.encode();
    assert_eq!(
        bytes,
        vec![0, 1, 0, 0, 0, 0, 0, 0, 0, b'a', 1, 0, 0, 0, 0, 0, 0, 0, b'1']
    );
}

#[test]
fn remove_record_bytes() {
    let bytes = Action::Remove { key: "ab".to_string() }.encode();
    assert_eq!(bytes, vec![1, 2, 0, 0, 0, 0, 0, 0, 0, b'a', b'b']);
}

#[test]
fn decode_stops_after_one_record() {
    let mut bytes = Action::Remove { key: "k".to_string() }.encode();
    let n = bytes.len();
    bytes.extend([9u8, 9, 9]);
    assert_eq!(decode(&bytes), Decoded::Record(Action::Remove { key: "k".to_string() }, n));
}

#[test]
fn decode_short_input_is_truncated() {
    let bytes = Action::Put { key: "key".to_string(), val: "val".to_string() }.encode();
    assert_eq!(decode(&[]), Decoded::Truncated);
    for cut in 1..bytes.len() {
        assert_eq!(decode(&bytes[..cut]), Decoded::Truncated);
    }
}

#[test]
fn decode_unknown_tag_is_invalid() {
    assert_eq!(decode(&[2, 0, 0]), Decoded::Invalid);
}

#[test]
fn field_decodes_utf8_text() {
    let mut bytes = 2u64.to_le_bytes().to_vec();
    bytes.extend("é".as_bytes());
    assert_eq!(decode_field(&bytes, 0), FieldDecoded::Field("é".to_string(), 10));
}

#[test]
fn field_with_bad_utf8_is_invalid() {
    let mut bytes = 1u64.to_le_bytes().to_vec();
    bytes.push(0x80);
    assert_eq!(decode_field(&bytes, 0), FieldDecoded::Invalid);
}

#[test]
fn action_key() {
    assert_eq!(Action::Remove { key: "z".to_string() }.key(), "z");
    assert_eq!(Action::Put { key: "y".to_string(), val: "1".to_string() }.key(), "y");
}
