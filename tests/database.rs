use mongo_driver::database::get_coll_name_from_doc;
use mongo_driver::document::{Document, Value};

fn command(key: &str, value: &str) -> Document {
    let mut d = Document::new();
    d.insert(key, Value::String(value.to_string()));
    d
}

#[test]
fn test_get_coll_name_from_doc() {
    let command1 = command("find", "cursor_items");
    assert_eq!("cursor_items", get_coll_name_from_doc(&command1).unwrap());
    let command2 = command("aggregate", "cursor_items");
    assert_eq!("cursor_items", get_coll_name_from_doc(&command2).unwrap());
    let command3 = command("error", "cursor_items");
    assert!(get_coll_name_from_doc(&command3).is_err());
}

#[test]
fn coll_name_from_list_indexes_and_non_string() {
    assert_eq!("ix", get_coll_name_from_doc(&command("listIndexes", "ix")).unwrap());
    let mut d = Document::new();
    d.insert("find", Value::I32(1));
    assert!(get_coll_name_from_doc(&d).is_err());
}
