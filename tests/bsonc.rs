use mongo_driver::bsonc::Bsonc;
use mongo_driver::document::{Document, Value};
use mongo_driver::error::DecodingError;

#[test]
fn test_bsonc_from_and_as_document() {
    let mut document = Document::new();
    document.insert("key", Value::String("value".to_string()));
    let bsonc = Bsonc::from_document(&document).unwrap();

    let decoded = bsonc.as_document().unwrap();
    assert_eq!(decoded.as_string("key").unwrap(), "value");
}

#[test]
fn test_bsonc_from_and_as_document_invalid_utf8() {
    let bytes = vec![17u8, 0, 0, 0, 0x02, b'k', b'e', b'y', 0, 3, 0, 0, 0, 0x80, 0xae, 0, 0];
    let bsonc = Bsonc::from_ptr(&bytes).unwrap();

    let decoded = bsonc.as_document().unwrap();
    assert_eq!(decoded.as_string("key").unwrap(), "��");
}

#[test]
fn borrowed_and_owned_buffers() {
    let bytes = vec![5u8, 0, 0, 0, 0];
    let borrowed = Bsonc::from_ptr(&bytes).unwrap();
    assert!(!borrowed.is_owned());
    assert_eq!(&bytes[..], borrowed.inner());
    assert!(Bsonc::from_document(&Document::new()).unwrap().is_owned());
}

#[test]
fn badly_framed_buffer_is_refused() {
    assert_eq!(Some(DecodingError::Malformed), Bsonc::from_ptr(&[6, 0, 0, 0, 0]).err());
    assert_eq!(Some(DecodingError::Malformed), Bsonc::from_ptr(&[5, 0, 0, 0, 9]).err());
    assert_eq!(Some(DecodingError::Malformed), Bsonc::from_ptr(&[]).err());
}
