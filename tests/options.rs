use mongo_driver::collection::{
    AggregateOptions, BulkOperationOptions, CountOptions, FindAndModifyOptions, InsertOptions, RemoveOptions,
    UpdateOptions,
};
use mongo_driver::document::{Document, Value};
use mongo_driver::flags::FlagsValue;
use mongo_driver::read_prefs::{read_mode_value, ReadMode};
use mongo_driver::write_concern::WriteConcernLevel;
use mongo_driver::CommandAndFindOptions;

#[test]
fn option_defaults() {
    let a = AggregateOptions::default();
    assert_eq!(0, a.query_flags.flags());
    assert!(a.options.is_none() && a.read_prefs.is_none());
    let b = BulkOperationOptions::default();
    assert!(!b.ordered);
    assert_eq!(WriteConcernLevel::Default, b.write_concern);
    let f = FindAndModifyOptions::default();
    assert!(f.sort.is_none() && !f.new && f.fields.is_none());
    let c = CountOptions::default();
    assert_eq!((0, 0, 0), (c.query_flags.flags(), c.skip, c.limit));
    assert_eq!(0, InsertOptions::default().insert_flags.flags());
    assert_eq!(0, RemoveOptions::default().remove_flags.flags());
    assert_eq!(0, UpdateOptions::default().update_flags.flags());
}

#[test]
fn command_and_find_options() {
    let o = CommandAndFindOptions::default();
    assert_eq!((0, 0, 0, 0), (o.query_flags.flags(), o.skip, o.limit, o.batch_size));
    assert!(o.fields.is_none() && o.read_prefs.is_none());
    let mut fields = Document::new();
    fields.insert("a", Value::I32(1));
    let o = CommandAndFindOptions::with_fields(fields.clone());
    assert_eq!(Some(fields), o.fields);
}

#[test]
fn read_mode_values() {
    assert_eq!(1, read_mode_value(&ReadMode::Primary));
    assert_eq!(2, read_mode_value(&ReadMode::Secondary));
    assert_eq!(5, read_mode_value(&ReadMode::PrimaryPreferred));
    assert_eq!(6, read_mode_value(&ReadMode::SecondaryPreferred));
    assert_eq!(10, read_mode_value(&ReadMode::Nearest));
}
