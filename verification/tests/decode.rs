use proton_vdf::decode::read_vdf;
use proton_vdf::errors::VdfError;
use proton_vdf::value::{VdfMap, VdfValue};

fn decode(bytes: Vec<u8>) -> VdfMap {
    read_vdf(bytes).expect("decode should succeed")
}

#[test]
fn empty_buffer_decodes_to_empty_object() {
    let m = decode(vec![]);
    assert_eq!(m.len(), 0);
}

#[test]
fn single_sentinel_decodes_to_empty_object() {
    let m = decode(vec![0x08]);
    assert_eq!(m.len(), 0);
}

#[test]
fn string_entry_round_trip() {
    let m = decode(vec![0x01, b'k', 0x00, b'v', 0x00, 0x08]);
    assert_eq!(m.len(), 1);
    let v = m.get("k").expect("key should be present");
    assert_eq!(v.as_str().expect("value should be a string"), "v");
}

#[test]
fn nested_object_with_integer() {
    let m = decode(vec![
        0x00, b'o', 0x00, 0x02, b'n', 0x00, 0x05, 0x00, 0x00, 0x00, 0x08, 0x08,
    ]);
    assert_eq!(m.len(), 1);
    let o = m.get("o").expect("outer key").as_map().expect("nested object");
    assert_eq!(o.len(), 1);
    let n = o.get("n").expect("inner key").as_number().expect("integer value");
    assert_eq!(*n, 5);
}

#[test]
fn truncated_integer_fails_with_unexpected_end() {
    let r = read_vdf(vec![0x02, b'n', 0x00, 0x01, 0x02]);
    assert_eq!(r.unwrap_err(), VdfError::UnexpectedEnd);
}

#[test]
fn truncated_key_fails_with_unexpected_end() {
    let r = read_vdf(vec![0x01, b'k']);
    assert_eq!(r.unwrap_err(), VdfError::UnexpectedEnd);
}

#[test]
fn unknown_tag_fails_with_the_offending_byte() {
    let r = read_vdf(vec![0xFF]);
    assert_eq!(r.unwrap_err(), VdfError::UnknownTag(0xFF));
}

#[test]
fn unknown_tag_aborts_whole_decode_after_good_entry() {
    let r = read_vdf(vec![0x01, b'k', 0x00, b'v', 0x00, 0x03]);
    assert_eq!(r.unwrap_err(), VdfError::UnknownTag(0x03));
}

#[test]
fn exhaustion_between_entries_closes_every_open_object() {
    // a nested object is opened and the buffer ends: both levels close
    let m = decode(vec![0x00, b'o', 0x00]);
    assert_eq!(m.len(), 1);
    let o = m.get("o").expect("outer key").as_map().expect("nested object");
    assert_eq!(o.len(), 0);
}

#[test]
fn keys_fold_to_lowercase_and_later_entry_wins() {
    let m = decode(vec![
        0x01, b'K', b'e', b'y', 0x00, b'a', 0x00, 0x01, b'K', b'E', b'Y', 0x00, b'b', 0x00, 0x08,
    ]);
    assert_eq!(m.len(), 1);
    let v = m.get("key").expect("folded key");
    assert_eq!(v.as_str().expect("string value"), "b");
    assert!(m.get("Key").is_none());
}

#[test]
fn entry_order_does_not_matter_for_distinct_keys() {
    let fwd = decode(vec![
        0x01, b'a', 0x00, b'1', 0x00, 0x01, b'b', 0x00, b'2', 0x00, 0x08,
    ]);
    let rev = decode(vec![
        0x01, b'b', 0x00, b'2', 0x00, 0x01, b'a', 0x00, b'1', 0x00, 0x08,
    ]);
    assert_eq!(fwd.len(), 2);
    assert_eq!(rev.len(), 2);
    for key in ["a", "b"] {
        let x = fwd.get(key).unwrap().as_str().unwrap().clone();
        let y = rev.get(key).unwrap().as_str().unwrap().clone();
        assert_eq!(x, y);
    }
}

#[test]
fn decoding_twice_yields_equal_trees() {
    let bytes = vec![
        0x00, b'o', 0x00, 0x02, b'n', 0x00, 0x2A, 0x00, 0x00, 0x00, 0x08, 0x01, b's', 0x00, b'x',
        0x00, 0x08,
    ];
    let m1 = decode(bytes.clone());
    let m2 = decode(bytes);
    assert_eq!(m1.len(), m2.len());
    let o1 = m1.get("o").unwrap().as_map().unwrap();
    let o2 = m2.get("o").unwrap().as_map().unwrap();
    assert_eq!(o1.len(), o2.len());
    assert_eq!(
        o1.get("n").unwrap().as_number().unwrap(),
        o2.get("n").unwrap().as_number().unwrap()
    );
    assert_eq!(
        m1.get("s").unwrap().as_str().unwrap(),
        m2.get("s").unwrap().as_str().unwrap()
    );
}

#[test]
fn invalid_utf8_in_value_becomes_replacement_characters() {
    let m = decode(vec![0x01, b'k', 0x00, 0xFF, 0xFE, 0x00, 0x08]);
    let v = m.get("k").unwrap().as_str().unwrap();
    assert_eq!(v, "\u{FFFD}\u{FFFD}");
}

#[test]
fn integer_is_little_endian_unsigned() {
    let m = decode(vec![
        0x02, b'n', 0x00, 0xFF, 0xFF, 0xFF, 0xFF, 0x08,
    ]);
    assert_eq!(*m.get("n").unwrap().as_number().unwrap(), u32::MAX);
    let m2 = decode(vec![
        0x02, b'n', 0x00, 0x01, 0x02, 0x00, 0x00, 0x08,
    ]);
    assert_eq!(*m2.get("n").unwrap().as_number().unwrap(), 0x0201);
}

#[test]
fn accessors_match_the_variant() {
    let m = decode(vec![
        0x01, b's', 0x00, b'v', 0x00, 0x02, b'n', 0x00, 0x07, 0x00, 0x00, 0x00, 0x00, b'o', 0x00,
        0x08, 0x08,
    ]);
    let s = m.get("s").unwrap();
    assert!(s.as_str().is_some());
    assert!(s.as_map().is_none());
    assert!(s.as_number().is_none());
    assert_eq!(s.copy_as_str().unwrap(), "v");
    let n = m.get("n").unwrap();
    assert!(n.as_number().is_some());
    assert!(n.as_str().is_none());
    assert_eq!(n.copy_as_str().unwrap(), "7");
    let o = m.get("o").unwrap();
    assert!(o.as_map().is_some());
    assert!(o.copy_as_str().is_none());
}

#[test]
fn copy_as_str_prints_large_numbers_in_base_ten() {
    let m = decode(vec![
        0x02, b'n', 0x00, 0xFF, 0xFF, 0xFF, 0xFF, 0x08,
    ]);
    assert_eq!(m.get("n").unwrap().copy_as_str().unwrap(), "4294967295");
    let z = decode(vec![0x02, b'z', 0x00, 0x00, 0x00, 0x00, 0x00, 0x08]);
    assert_eq!(z.get("z").unwrap().copy_as_str().unwrap(), "0");
}

#[test]
fn into_map_and_as_map_mut() {
    let mut m = decode(vec![0x00, b'o', 0x00, 0x08, 0x08]);
    {
        let entry = m.get("o").unwrap();
        assert!(entry.as_str().is_none());
    }
    let mut inner_probe = VdfValue::Object(VdfMap::new());
    assert!(inner_probe.as_map_mut().is_some());
    assert!(VdfValue::Text(String::from("x")).into_map().is_none());
    assert!(VdfValue::Object(VdfMap::new()).into_map().is_some());
    assert_eq!(m.len(), 1);
}

#[test]
fn map_insert_overwrites_by_key() {
    let mut m = VdfMap::new();
    m.insert(String::from("a"), VdfValue::Integer(1));
    m.insert(String::from("b"), VdfValue::Integer(2));
    m.insert(String::from("a"), VdfValue::Integer(3));
    assert_eq!(m.len(), 2);
    assert_eq!(*m.get("a").unwrap().as_number().unwrap(), 3);
    assert_eq!(*m.get("b").unwrap().as_number().unwrap(), 2);
    assert!(m.get("c").is_none());
}

#[test]
fn unknown_tag_consumes_exactly_the_tag_byte() {
    let mut cursor = proton_vdf::cursor::ByteCursor::new(vec![0x07, 0x01, 0x02]);
    let r = proton_vdf::decode::next_map_item(&mut cursor);
    assert_eq!(r.unwrap_err(), VdfError::UnknownTag(0x07));
    assert_eq!(cursor.pos, 1);
}

#[test]
fn as_map_mut_returns_the_held_object_unchanged() {
    let mut v = VdfValue::Object(VdfMap::new());
    {
        let inner = v.as_map_mut().expect("an object");
        assert_eq!(inner.len(), 0);
        inner.insert(String::from("k"), VdfValue::Integer(9));
    }
    let m = v.as_map().expect("still an object");
    assert_eq!(m.len(), 1);
    assert_eq!(*m.get("k").unwrap().as_number().unwrap(), 9);
    assert!(VdfValue::Integer(1).as_map_mut().is_none());
}
