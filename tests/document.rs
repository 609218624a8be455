use mongo_driver::document::{Document, FieldAccessError, ObjectId, Value};

#[test]
fn test_object_id() {
    let id = ObjectId::new();

    // Check something is in the bytes array
    assert!(id.bytes[0] > 0);
    assert!(id.to_string().len() > 10);

    // Make sure the next id is not the same
    assert!(id != ObjectId::new());
}

#[test]
fn test_object_from_and_to_string() {
    let id = "55dc546717ed939a14478a51";
    let oid = ObjectId::from_str(id);

    assert_eq!(id.to_string(), oid.to_string());
}

#[test]
fn test_object_id_equality() {
    let id = "55dc546717ed939a14478a51";

    let oid1 = ObjectId::from_str(id);
    let oid2 = ObjectId::from_str(id);
    let oid3 = ObjectId::new();

    assert!(oid1 == oid2);
    assert!(oid1 != oid3);
}

#[test]
fn object_id_hex_bytes() {
    let oid = ObjectId::from_str("55DC546717ed939a14478a51");
    assert_eq!(
        [0x55, 0xdc, 0x54, 0x67, 0x17, 0xed, 0x93, 0x9a, 0x14, 0x47, 0x8a, 0x51],
        oid.bytes
    );
    assert_eq!("55dc546717ed939a14478a51", oid.to_string());
}

#[test]
fn object_id_parse_rejects_bad_text() {
    assert!(ObjectId::parse("55dc546717ed939a14478a5").is_none());
    assert!(ObjectId::parse("55dc546717ed939a14478a5z").is_none());
    assert!(ObjectId::parse("55dc546717ed939a14478a51").is_some());
}

#[test]
fn test_document_get() {
    // Create a document with some fields
    let mut doc = Document::new();
    doc.insert("field1", Value::I32(1i32));
    doc.insert("field2", Value::I32(2i32));
    doc.insert("field3", Value::I32(3i32));
    doc.insert("field4", Value::I32(4i32));
    doc.insert("field5", Value::I32(5i32));

    // Find one in the middle
    assert_eq!(Some(Value::I32(3i32)), doc.get("field3"));

    // Try to find one that does not exist
    assert_eq!(None, doc.get("something"));
}

#[test]
fn test_document_clone_and_equality() {
    let mut doc1 = Document::new();
    doc1.insert("some_key", Value::I32(10));

    let mut doc2 = Document::new();
    doc2.insert("some_key", Value::I32(10));

    let doc3 = doc2.clone();

    let mut doc4 = Document::new();
    doc4.insert("some_key", Value::I32(20));

    assert!(doc1 == doc2);
    assert!(doc1 == doc3);
    assert!(doc1 != doc4);
}

#[test]
fn test_document() {
    let mut doc = Document::new();
    let mut embedded = Document::new();
    embedded.insert("an_int", Value::I32(10i32));
    doc.insert("embedded", Value::Document(embedded.clone()));

    assert_eq!(Some(Value::Document(embedded.clone())), doc.get("embedded"));
    assert_eq!(Ok(embedded), doc.as_document("embedded"));
}

#[test]
fn test_document_i32() {
    let mut doc = Document::new();
    doc.insert("i32", Value::I32(10i32));
    assert_eq!(Some(Value::I32(10i32)), doc.get("i32"));
    assert_eq!(Ok(10i32), doc.as_i32("i32"));
}

#[test]
fn test_document_i64() {
    let mut doc = Document::new();
    doc.insert("i64", Value::I64(10i64));
    assert_eq!(Some(Value::I64(10i64)), doc.get("i64"));
    assert_eq!(Ok(10i64), doc.as_i64("i64"));
}

#[test]
fn test_document_object_id() {
    let id = "55dc546717ed939a14478a51";

    let mut doc = Document::new();
    doc.insert("_id", Value::ObjectId(ObjectId::from_str(id)));
    assert_eq!(Some(Value::ObjectId(ObjectId::from_str(id))), doc.get("_id"));
    assert_eq!(Ok(ObjectId::from_str(id)), doc.as_object_id("_id"));
}

#[test]
fn test_document_string() {
    let mut doc = Document::new();
    doc.insert("str", Value::String("this is a str: Iñtërnâtiônàlizætiøn".to_string()));
    doc.insert("string", Value::String("this is a string: Iñtërnâtiônàlizætiøn".to_string()));
    assert_eq!(Some(Value::String("this is a str: Iñtërnâtiônàlizætiøn".to_string())), doc.get("str"));
    assert_eq!(Some(Value::String("this is a string: Iñtërnâtiônàlizætiøn".to_string())), doc.get("string"));
    assert_eq!(Ok("this is a string: Iñtërnâtiônàlizætiøn".to_string()), doc.as_string("string"));
}

#[test]
fn insert_existing_key_replaces_in_place() {
    let mut doc = Document::new();
    doc.insert("a", Value::I32(1));
    doc.insert("b", Value::I32(2));
    doc.insert("a", Value::I32(3));
    assert_eq!(2, doc.len());
    assert_eq!("a", doc.fields()[0].0);
    assert_eq!(Value::I32(3), doc.fields()[0].1);
    assert_eq!("b", doc.fields()[1].0);
}

#[test]
fn typed_access_errors() {
    let mut doc = Document::new();
    doc.insert("n", Value::I32(1));
    assert_eq!(Err(FieldAccessError::UnexpectedType), doc.as_i64("n"));
    assert_eq!(Err(FieldAccessError::UnexpectedType), doc.as_string("n"));
    assert_eq!(Err(FieldAccessError::NotPresent), doc.as_i32("missing"));
    assert_eq!(Err(FieldAccessError::NotPresent), doc.as_object_id("missing"));
}
