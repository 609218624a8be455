use mongo_driver::codec::encode;
use mongo_driver::collection::TailOptions;
use mongo_driver::cursor::{
    batch_to_array, change_stream_item, BatchAction, BatchCursor, Cursor, CursorReply, CursorStep, TailAction, TailStep,
    TailingCursor,
};
use mongo_driver::document::{Document, FieldAccessError, ObjectId, Value};
use mongo_driver::error::{BsoncError, MongoError, MongoErrorCode, MongoErrorDomain};
use mongo_driver::flags::{FlagsValue, QueryFlag};
use mongo_driver::CommandAndFindOptions;

fn doc_with(key: &str, v: i32) -> Document {
    let mut d = Document::new();
    d.insert(key, Value::I32(v));
    d
}

fn reply(has_more: bool, document: Option<Vec<u8>>, error: BsoncError, alive: bool) -> CursorReply {
    CursorReply { has_more, document, error, alive }
}

#[test]
fn plain_cursor_gives_each_item_then_ends_for_good() {
    let items: Vec<Vec<u8>> = (0..10).map(|i| encode(&doc_with("key", i)).unwrap()).collect();
    let mut c = Cursor::new();
    let mut got = Vec::new();
    for item in items {
        assert!(c.should_fetch(true));
        match c.on_reply(reply(true, Some(item), BsoncError::empty(), true)) {
            CursorStep::Item(Ok(d)) => got.push(d),
            _ => panic!("expected a document"),
        }
    }
    assert_eq!(10, got.len());
    assert_eq!(Ok(7), got[7].as_i32("key"));
    assert!(!c.should_fetch(false));
    assert!(matches!(c.on_reply(reply(false, None, BsoncError::empty(), false)), CursorStep::End));
    assert!(!c.should_fetch(true));
    assert!(matches!(c.on_reply(reply(true, Some(encode(&Document::new()).unwrap()), BsoncError::empty(), true)), CursorStep::End));
}

#[test]
fn plain_cursor_stops_after_a_driver_error() {
    let mut c = Cursor::new();
    let step = c.on_reply(reply(true, None, BsoncError::new(2, 5, "socket".to_string()), false));
    match step {
        CursorStep::Item(Err(MongoError::Bsonc(e))) => {
            assert_eq!(MongoErrorDomain::Stream, e.domain());
            assert_eq!(MongoErrorCode::StreamConnect, e.code());
            assert_eq!("socket", e.get_message());
        },
        _ => panic!("expected the driver's error"),
    }
    assert!(matches!(c.on_reply(reply(true, None, BsoncError::empty(), true)), CursorStep::End));
}

#[test]
fn decode_failure_does_not_end_the_cursor() {
    let mut c = Cursor::new();
    let step = c.on_reply(reply(true, Some(vec![1, 2, 3]), BsoncError::empty(), true));
    assert!(matches!(step, CursorStep::Item(Err(MongoError::Decoder(_)))));
    assert!(c.should_fetch(true));
}

#[test]
fn tailing_cursor_waits_while_alive() {
    let mut c = Cursor::new_tailing(25);
    assert!(c.should_fetch(false));
    assert!(matches!(c.on_reply(reply(false, None, BsoncError::empty(), true)), CursorStep::Wait(25)));
    assert!(matches!(c.on_reply(reply(false, None, BsoncError::empty(), false)), CursorStep::End));
}

fn with_id(id: &str) -> Document {
    let mut d = Document::new();
    d.insert("_id", Value::ObjectId(ObjectId::from_str(id)));
    d
}

#[test]
fn tailing_resumes_after_the_last_seen_id() {
    let mut t = TailingCursor::new(Document::new(), CommandAndFindOptions::default(), TailOptions::default());
    match t.next_action() {
        TailAction::Open(q) => assert_eq!(Document::new(), q),
        _ => panic!("expected an open"),
    }
    t.opened();
    assert!(matches!(t.next_action(), TailAction::Pull));
    let seen = "55dc546717ed939a14478a51";
    assert!(matches!(t.on_item(Some(Ok(with_id(seen)))), TailStep::Yield(Ok(_))));
    let err = MongoError::Bsonc(BsoncError::new(2, 5, String::new()));
    assert!(matches!(t.on_item(Some(Err(err))), TailStep::Retry));
    match t.next_action() {
        TailAction::Open(q) => {
            let filter = q.as_document("_id").unwrap();
            assert_eq!(Ok(ObjectId::from_str(seen)), filter.as_object_id("$gt"));
        },
        _ => panic!("expected a reopen"),
    }
}

#[test]
fn tailing_reports_the_failure_after_the_retries() {
    let mut t = TailingCursor::new(
        Document::new(),
        CommandAndFindOptions::default(),
        TailOptions { wait_duration_ms: 10, max_retries: 2 },
    );
    let mut outcomes = Vec::new();
    for _ in 0..3 {
        match t.next_action() {
            TailAction::Open(_) => t.opened(),
            _ => {},
        }
        assert!(matches!(t.next_action(), TailAction::Pull));
        let err = MongoError::Bsonc(BsoncError::new(2, 5, String::new()));
        outcomes.push(match t.on_item(Some(Err(err))) {
            TailStep::Retry => "retry",
            TailStep::Yield(Err(_)) => "error",
            TailStep::Yield(Ok(_)) => "document",
        });
    }
    assert_eq!(vec!["retry", "retry", "error"], outcomes);
    assert!(matches!(t.next_action(), TailAction::End));
}

#[test]
fn tail_options_default() {
    let o = TailOptions::default();
    assert_eq!(500, o.wait_duration_ms);
    assert_eq!(5, o.max_retries);
}

fn envelope(batch_key: &str, docs: Vec<Document>, id: i64) -> Document {
    let mut arr = Document::new();
    for (i, d) in docs.into_iter().enumerate() {
        arr.insert(&i.to_string(), Value::Document(d));
    }
    let mut cursor = Document::new();
    cursor.insert("id", Value::I64(id));
    cursor.insert(batch_key, Value::Array(arr));
    let mut env = Document::new();
    env.insert("cursor", Value::Document(cursor));
    env
}

#[test]
fn batch_envelopes() {
    let (docs, id) = batch_to_array(&envelope("firstBatch", vec![doc_with("k", 1)], 42)).unwrap().unwrap();
    assert_eq!(42, id);
    assert_eq!(vec![doc_with("k", 1)], docs);
    let mut cursor = Document::new();
    cursor.insert("id", Value::I32(0));
    let mut env = Document::new();
    env.insert("cursor", Value::Document(cursor));
    assert!(batch_to_array(&env).unwrap().is_none());
    let mut cursor = Document::new();
    cursor.insert("id", Value::I64(7));
    let mut env = Document::new();
    env.insert("cursor", Value::Document(cursor));
    assert!(matches!(batch_to_array(&env), Err(MongoError::Decoder(_))));
    assert!(matches!(
        batch_to_array(&Document::new()),
        Err(MongoError::ValueAccessError(FieldAccessError::NotPresent))
    ));
    let mut cursor = Document::new();
    cursor.insert("id", Value::String("x".to_string()));
    let mut env = Document::new();
    env.insert("cursor", Value::Document(cursor));
    assert!(matches!(batch_to_array(&env), Err(MongoError::ValueAccessError(FieldAccessError::NotPresent))));
    let mut env = Document::new();
    env.insert("cursor", Value::I32(1));
    assert!(matches!(batch_to_array(&env), Err(MongoError::ValueAccessError(FieldAccessError::NotPresent))));
    let mut cursor = Document::new();
    cursor.insert("id", Value::I64(1));
    cursor.insert("firstBatch", Value::I32(3));
    let mut env = Document::new();
    env.insert("cursor", Value::Document(cursor));
    assert!(matches!(batch_to_array(&env), Err(MongoError::ValueAccessError(FieldAccessError::NotPresent))));
}

#[test]
fn batch_cursor_drains_before_get_more() {
    let first: Vec<Document> = (0..3).map(|i| doc_with("k", i)).collect();
    let second: Vec<Document> = (3..5).map(|i| doc_with("k", i)).collect();
    let mut pulls = vec![Some(Ok(envelope("firstBatch", first, 99))), None].into_iter();
    let mut more = vec![Some(Ok(envelope("nextBatch", second, 0))), None].into_iter();
    let mut b = BatchCursor::new("items".to_string());
    let mut seen = Vec::new();
    let mut get_more_at = None;
    loop {
        let mut action = b.begin();
        let item = loop {
            match action {
                BatchAction::Yield(r) => break Some(r),
                BatchAction::End => break None,
                BatchAction::Pull => {
                    let next = if get_more_at.is_some() { more.next().unwrap_or(None) } else { pulls.next().unwrap_or(None) };
                    action = b.on_pulled(next);
                },
                BatchAction::GetMore(cmd) => {
                    assert_eq!(Ok(99), cmd.as_i64("getMore"));
                    assert_eq!(Ok("items".to_string()), cmd.as_string("collection"));
                    get_more_at = Some(seen.len());
                    action = b.on_get_more(true);
                },
            }
        };
        match item {
            Some(Ok(d)) => seen.push(d.as_i32("k").unwrap()),
            Some(Err(_)) => panic!("unexpected error"),
            None => break,
        }
    }
    assert_eq!(Some(3), get_more_at);
    assert_eq!(vec![0, 1, 2, 3, 4], seen);
}

#[test]
fn tailing_query_gets_tailable_flags() {
    let mut options = CommandAndFindOptions::default();
    options.query_flags.add(QueryFlag::SlaveOk);
    let t = TailingCursor::new(Document::new(), options, TailOptions::default());
    assert_eq!(2 | 4 | 32, t.find_options().query_flags.flags());
    assert_eq!(500, t.wait_duration_ms());
}

#[test]
fn change_stream_items() {
    let raw = encode(&doc_with("k", 5)).unwrap();
    match change_stream_item(Some(raw), BsoncError::empty()) {
        Some(Ok(d)) => assert_eq!(Ok(5), d.as_i32("k")),
        _ => panic!("expected a document"),
    }
    assert!(change_stream_item(None, BsoncError::empty()).is_none());
    assert!(matches!(
        change_stream_item(None, BsoncError::new(4, 16, "dead".to_string())),
        Some(Err(MongoError::Bsonc(_)))
    ));
    assert!(matches!(change_stream_item(Some(vec![0]), BsoncError::empty()), Some(Err(MongoError::Decoder(_)))));
}

#[test]
fn test_cursor() {
    let mut document = Document::new();
    document.insert("key", Value::String("value".to_string()));
    let stored: Vec<Vec<u8>> = (0..10).map(|_| encode(&document).unwrap()).collect();
    let mut results = stored.into_iter();

    let mut cursor = Cursor::new();
    let mut documents = Vec::new();
    loop {
        let next = results.next();
        let has_more = next.is_some();
        let document = if cursor.should_fetch(has_more) { next } else { None };
        match cursor.on_reply(CursorReply { has_more, document, error: BsoncError::empty(), alive: has_more }) {
            CursorStep::Item(item) => documents.push(item),
            CursorStep::Wait(_) => panic!("not tailing"),
            CursorStep::End => break,
        }
    }

    // See if we got 10 results and the iterator then stopped
    assert_eq!(10, documents.len());
}

#[test]
fn test_batch_cursor() {
    const NUM_TO_TEST: i32 = 10000;
    let all: Vec<Document> = (0..NUM_TO_TEST).map(|i| doc_with("key", i)).collect();
    let batches = vec![
        envelope("firstBatch", all[..101].to_vec(), 77),
        envelope("nextBatch", all[101..5101].to_vec(), 77),
        envelope("nextBatch", all[5101..].to_vec(), 0),
    ];
    let mut next_batch = 0usize;
    let mut pending: Option<Document> = None;

    let mut command = Document::new();
    command.insert("find", Value::String("test_batch_cursor".to_string()));
    let coll = mongo_driver::database::get_coll_name_from_doc(&command).unwrap();
    let mut cur = BatchCursor::new(coll);
    let mut get_more = |pending: &mut Option<Document>, next_batch: &mut usize| {
        *pending = Some(batches[*next_batch].clone());
        *next_batch += 1;
    };
    get_more(&mut pending, &mut next_batch);

    let mut count = 0;
    loop {
        let mut action = cur.begin();
        let item = loop {
            match action {
                BatchAction::Yield(r) => break Some(r),
                BatchAction::End => break None,
                BatchAction::Pull => action = cur.on_pulled(pending.take().map(Ok)),
                BatchAction::GetMore(_) => {
                    get_more(&mut pending, &mut next_batch);
                    action = cur.on_get_more(true);
                },
            }
        };
        match item {
            Some(doc) => {
                assert!(doc.is_ok());
                count += 1;
            },
            None => break,
        }
    }
    assert_eq!(count, NUM_TO_TEST);
}

#[test]
fn tailing_open_failure_is_reported_and_retried() {
    let mut t = TailingCursor::new(Document::new(), CommandAndFindOptions::default(), TailOptions::default());
    assert!(matches!(t.next_action(), TailAction::Open(_)));
    let step = t.open_failed(MongoError::Bsonc(BsoncError::new(2, 5, String::new())));
    assert!(matches!(step, TailStep::Yield(Err(MongoError::Bsonc(_)))));
    assert!(matches!(t.next_action(), TailAction::Open(_)));
}
