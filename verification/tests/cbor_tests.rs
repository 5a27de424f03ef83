use attested_channel::cbor::{parse_document, Item, Scalar};
use serde_cbor::value::Value;
use std::collections::BTreeMap;

fn doc_with(entries: Vec<(Value, Value)>) -> Vec<u8> {
    let map: BTreeMap<Value, Value> = entries.into_iter().collect();
    serde_cbor::to_vec(&Value::Map(map)).unwrap()
}

fn get<'a>(doc: &'a [(Scalar, Item)], name: &str) -> Option<&'a Item> {
    doc.iter().find_map(|(k, v)| match k {
        Scalar::Text(t) if t.as_slice() == name.as_bytes() => Some(v),
        _ => None,
    })
}

#[test]
fn parses_a_document_serialized_by_another_encoder() {
    let mut pcrs: BTreeMap<Value, Value> = BTreeMap::new();
    pcrs.insert(Value::Integer(0), Value::Bytes(vec![0xaa; 48]));
    pcrs.insert(Value::Integer(1), Value::Bytes(vec![0xbb; 48]));
    let bytes = doc_with(vec![
        (Value::Text("pcrs".to_string()), Value::Map(pcrs)),
        (Value::Text("timestamp".to_string()), Value::Integer(1700000000123)),
        (Value::Text("certificate".to_string()), Value::Bytes(vec![1, 2, 3])),
        (
            Value::Text("cabundle".to_string()),
            Value::Array(vec![Value::Bytes(vec![4, 5]), Value::Bytes(vec![6])]),
        ),
        (Value::Text("user_data".to_string()), Value::Null),
        (Value::Text("flag".to_string()), Value::Bool(true)),
    ]);
    let doc = parse_document(&bytes).expect("canonical document must parse");
    match get(&doc, "timestamp") {
        Some(Item::One(Scalar::UInt(t))) => assert_eq!(*t, 1700000000123),
        other => panic!("timestamp mis-parsed: {:?}", other.is_some()),
    }
    match get(&doc, "certificate") {
        Some(Item::One(Scalar::Bytes(b))) => assert_eq!(b, &vec![1u8, 2, 3]),
        _ => panic!("certificate mis-parsed"),
    }
    match get(&doc, "cabundle") {
        Some(Item::Array(a)) => {
            assert_eq!(a.len(), 2);
            match (&a[0], &a[1]) {
                (Scalar::Bytes(x), Scalar::Bytes(y)) => {
                    assert_eq!(x, &vec![4u8, 5]);
                    assert_eq!(y, &vec![6u8]);
                }
                _ => panic!("bundle elements mis-parsed"),
            }
        }
        _ => panic!("cabundle mis-parsed"),
    }
    match get(&doc, "pcrs") {
        Some(Item::Table(m)) => assert_eq!(m.len(), 2),
        _ => panic!("pcrs mis-parsed"),
    }
    match get(&doc, "user_data") {
        Some(Item::One(Scalar::Null)) => {}
        _ => panic!("null mis-parsed"),
    }
    match get(&doc, "flag") {
        Some(Item::One(Scalar::Bool(true))) => {}
        _ => panic!("bool mis-parsed"),
    }
}

#[test]
fn parses_negative_integers() {
    let bytes = doc_with(vec![(Value::Text("n".to_string()), Value::Integer(-5))]);
    let doc = parse_document(&bytes).unwrap();
    match get(&doc, "n") {
        Some(Item::One(Scalar::NegInt(v))) => assert_eq!(*v, 4),
        _ => panic!("negative integer mis-parsed"),
    }
}

#[test]
fn parses_multibyte_length_arguments() {
    let long = vec![0x5au8; 300];
    let bytes = doc_with(vec![(Value::Text("blob".to_string()), Value::Bytes(long.clone()))]);
    let doc = parse_document(&bytes).unwrap();
    match get(&doc, "blob") {
        Some(Item::One(Scalar::Bytes(b))) => assert_eq!(b, &long),
        _ => panic!("long byte string mis-parsed"),
    }
}

#[test]
fn rejects_non_canonical_length() {
    // head 0xb8 0x01: a one-entry map with a two-byte head where one byte
    // suffices; the canonical parser refuses it.
    let bytes = vec![0xb8u8, 0x01, 0x61, 0x6e, 0x05];
    assert!(parse_document(&bytes).is_none());
}

#[test]
fn rejects_trailing_bytes() {
    let mut bytes = doc_with(vec![(Value::Text("n".to_string()), Value::Integer(5))]);
    bytes.push(0);
    assert!(parse_document(&bytes).is_none());
}

#[test]
fn rejects_truncated_input() {
    let bytes = doc_with(vec![(Value::Text("blob".to_string()), Value::Bytes(vec![1; 40]))]);
    assert!(parse_document(&bytes[..bytes.len() - 1]).is_none());
}

#[test]
fn rejects_non_map_top_level() {
    let bytes = serde_cbor::to_vec(&Value::Array(vec![Value::Integer(1)])).unwrap();
    assert!(parse_document(&bytes).is_none());
}

#[test]
fn rejects_indefinite_length_map() {
    // 0xbf starts an indefinite-length map; only definite lengths parse.
    let bytes = vec![0xbfu8, 0x61, 0x6e, 0x05, 0xff];
    assert!(parse_document(&bytes).is_none());
}
