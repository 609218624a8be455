use mongo_driver::bsonc::Bsonc;
use mongo_driver::codec::{decode, decode_utf8_lossy, encode};
use mongo_driver::document::{Document, ObjectId, Value};
use mongo_driver::error::{DecodingError, EncodingError};

fn sample() -> Document {
    let mut array = Document::new();
    array.insert("0", Value::I32(10));
    array.insert("1", Value::I32(20));
    array.insert("2", Value::I32(30));
    let mut inner = Document::new();
    inner.insert("key", Value::I32(1));
    let mut d = Document::new();
    d.insert("_id", Value::ObjectId(ObjectId::from_str("55dc546717ed939a14478a51")));
    d.insert("floating_point", Value::Double(10.0f64.to_bits()));
    d.insert("string", Value::String("a value".to_string()));
    d.insert("array", Value::Array(array));
    d.insert("doc", Value::Document(inner));
    d.insert("bool", Value::Boolean(true));
    d.insert("i32", Value::I32(1));
    d.insert("i64", Value::I64(1));
    d.insert("datetime", Value::DateTime(1404810611000));
    d.insert("binary", Value::Binary(0, vec![0, 1, 2, 3, 4]));
    d.insert("null", Value::Null);
    d
}

fn sample_with_bson() -> bson::Document {
    let mut inner = bson::Document::new();
    inner.insert("key", bson::Bson::Int32(1));
    let mut d = bson::Document::new();
    let id = [0x55, 0xdc, 0x54, 0x67, 0x17, 0xed, 0x93, 0x9a, 0x14, 0x47, 0x8a, 0x51];
    d.insert("_id", bson::Bson::ObjectId(bson::oid::ObjectId::from_bytes(id)));
    d.insert("floating_point", bson::Bson::Double(10.0));
    d.insert("string", bson::Bson::String("a value".to_string()));
    d.insert(
        "array",
        bson::Bson::Array(vec![bson::Bson::Int32(10), bson::Bson::Int32(20), bson::Bson::Int32(30)]),
    );
    d.insert("doc", bson::Bson::Document(inner));
    d.insert("bool", bson::Bson::Boolean(true));
    d.insert("i32", bson::Bson::Int32(1));
    d.insert("i64", bson::Bson::Int64(1));
    d.insert("datetime", bson::Bson::DateTime(bson::DateTime::from_millis(1404810611000)));
    d.insert(
        "binary",
        bson::Bson::Binary(bson::Binary {
            subtype: bson::spec::BinarySubtype::Generic,
            bytes: vec![0, 1, 2, 3, 4],
        }),
    );
    d.insert("null", bson::Bson::Null);
    d
}

#[test]
fn encoding_matches_the_bson_crate() {
    let ours = encode(&sample()).unwrap();
    let mut theirs = Vec::new();
    sample_with_bson().to_writer(&mut theirs).unwrap();
    assert_eq!(theirs, ours);
}

#[test]
fn decoding_reads_what_the_bson_crate_writes() {
    let mut theirs = Vec::new();
    sample_with_bson().to_writer(&mut theirs).unwrap();
    assert_eq!(sample(), decode(&theirs).unwrap());
    let back = bson::Document::from_reader(&mut encode(&sample()).unwrap().as_slice()).unwrap();
    assert_eq!(sample_with_bson(), back);
}

#[test]
fn round_trip_keeps_order_and_values() {
    let d = sample();
    let bytes = encode(&d).unwrap();
    assert_eq!(d, decode(&bytes).unwrap());
    assert_eq!(d, decode_utf8_lossy(&bytes).unwrap());
    assert_eq!("floating_point", decode(&bytes).unwrap().fields()[1].0);
}

#[test]
fn length_prefix_and_terminator() {
    let bytes = encode(&sample()).unwrap();
    let n = u32::from_le_bytes([bytes[0], bytes[1], bytes[2], bytes[3]]) as usize;
    assert_eq!(bytes.len(), n);
    assert_eq!(0, bytes[bytes.len() - 1]);
}

#[test]
fn empty_document_encoding() {
    assert_eq!(vec![5u8, 0, 0, 0, 0], encode(&Document::new()).unwrap());
    assert_eq!(vec![5u8, 0, 0, 0, 0], Bsonc::new().inner().to_vec());
    assert_eq!(Document::new(), decode(&[5, 0, 0, 0, 0]).unwrap());
}

#[test]
fn int32_field_bytes() {
    let mut d = Document::new();
    d.insert("a", Value::I32(-2));
    assert_eq!(
        vec![12u8, 0, 0, 0, 0x10, b'a', 0, 0xfe, 0xff, 0xff, 0xff, 0],
        encode(&d).unwrap()
    );
}

fn invalid_utf8_payload() -> Vec<u8> {
    vec![17, 0, 0, 0, 0x02, b'k', b'e', b'y', 0, 3, 0, 0, 0, 0x80, 0xae, 0, 0]
}

#[test]
fn strict_decode_rejects_invalid_utf8() {
    assert_eq!(Err(DecodingError::InvalidUtf8), decode(&invalid_utf8_payload()));
}

#[test]
fn lossy_decode_replaces_invalid_utf8() {
    let d = decode_utf8_lossy(&invalid_utf8_payload()).unwrap();
    assert_eq!(Ok("\u{FFFD}\u{FFFD}".to_string()), d.as_string("key"));
}

#[test]
fn unsupported_type_is_reported() {
    let bytes = vec![8u8, 0, 0, 0, 0x06, b'a', 0, 0];
    assert_eq!(Err(DecodingError::UnsupportedType(0x06)), decode(&bytes));
}

#[test]
fn wrong_length_prefix_is_malformed() {
    assert_eq!(Err(DecodingError::Malformed), decode(&[6, 0, 0, 0, 0]));
    assert_eq!(Err(DecodingError::Malformed), decode(&[5, 0, 0, 0, 1]));
    assert_eq!(Err(DecodingError::Malformed), decode(&[4, 0, 0, 0]));
    assert_eq!(Err(DecodingError::Malformed), decode(&[12, 0, 0, 0, 0x10, b'a', 0, 1, 0, 0, 0]));
}

#[test]
fn key_with_nul_cannot_be_encoded() {
    let mut inner = Document::new();
    inner.insert("a\0b", Value::Null);
    let mut d = Document::new();
    d.insert("outer", Value::Document(inner));
    assert_eq!(Err(EncodingError::KeyContainsNul), encode(&d));
}

#[test]
fn test_bson_encode_decode() {
    let mut array = Document::new();
    array.insert("0", Value::I32(10));
    array.insert("1", Value::I32(20));
    array.insert("2", Value::I32(30));
    let mut inner = Document::new();
    inner.insert("key", Value::I32(1));
    // 2014-07-08 09:10:11 UTC
    let datetime = 1404810611000i64;
    let mut document = Document::new();
    document.insert("_id", Value::ObjectId(ObjectId::new()));
    document.insert("floating_point", Value::Double(10.0f64.to_bits()));
    document.insert("string", Value::String("a value".to_string()));
    document.insert("array", Value::Array(array));
    document.insert("doc", Value::Document(inner));
    document.insert("bool", Value::Boolean(true));
    document.insert("i32", Value::I32(1i32));
    document.insert("i64", Value::I64(1i64));
    document.insert("datetime", Value::DateTime(datetime));
    document.insert("binary", Value::Binary(0, vec![0, 1, 2, 3, 4]));
    let stored = encode(&document).expect("Could not insert");

    let found_document = decode(&stored).unwrap();

    assert_eq!(document, found_document);
}

#[test]
fn repeated_key_keeps_first_place_and_last_value() {
    let bytes = vec![
        26u8, 0, 0, 0, 0x10, b'a', 0, 1, 0, 0, 0, 0x10, b'b', 0, 2, 0, 0, 0, 0x10, b'a', 0, 3, 0, 0, 0, 0,
    ];
    let d = decode(&bytes).unwrap();
    assert_eq!(2, d.len());
    assert_eq!("a", d.fields()[0].0);
    assert_eq!(Value::I32(3), d.fields()[0].1);
    assert_eq!("b", d.fields()[1].0);
    let theirs = bson::Document::from_reader(&mut bytes.as_slice()).unwrap();
    assert_eq!(theirs, bson::Document::from_reader(&mut encode(&d).unwrap().as_slice()).unwrap());
}
