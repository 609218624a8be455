use mongo_driver::error::{BsoncError, MongoErrorCode, MongoErrorDomain};

#[test]
fn test_bson_error_empty() {
    let mut error = BsoncError::empty();
    assert!(error.is_empty());
    error.mut_inner().code = 1;
    assert!(!error.is_empty());
    error.mut_inner().domain = 1;
    error.mut_inner().code = 0;
    assert!(!error.is_empty());
}

#[test]
fn test_bson_error_domain() {
    let mut error = BsoncError::empty();
    assert_eq!(MongoErrorDomain::Blank, error.domain());
    error.mut_inner().domain = 1;
    assert_eq!(MongoErrorDomain::Client, error.domain());
}

#[test]
fn test_bson_error_code() {
    let mut error = BsoncError::empty();
    assert_eq!(MongoErrorCode::Blank, error.code());
    error.mut_inner().code = 1;
    assert_eq!(MongoErrorCode::StreamInvalidType, error.code());
}

#[test]
fn error_table_edges() {
    let error = BsoncError::new(14, 26, "gone".to_string());
    assert_eq!(MongoErrorDomain::Scram, error.domain());
    assert_eq!(MongoErrorCode::CollectionDoesNotExist, error.code());
    assert_eq!("gone", error.get_message());
    let error = BsoncError::new(15, 13051, String::new());
    assert_eq!(MongoErrorDomain::Unknown, error.domain());
    assert_eq!(MongoErrorCode::QueryNotTailable, error.code());
    assert_eq!(MongoErrorCode::QueryCommandNotFound, BsoncError::new(1, 59, String::new()).code());
    assert_eq!(MongoErrorCode::Unknown, BsoncError::new(1, 30, String::new()).code());
}
