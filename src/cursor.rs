//! The decisions of a cursor: plain, tailing and batched. The driver's work
//! (fetching, waiting, running commands) happens outside; each method here
//! takes what the driver reported and says what to do or hand out next.
use vstd::prelude::*;
use crate::codec::{decode_utf8_lossy, parse_document};
use crate::collection::TailOptions;
use crate::document::{
    lemma_fields_model, lemma_lookup_put, lookup, put, value_model, Bson, Document, FieldAccessError, ObjectId, Value,
};
use crate::error::{BsoncError, DecodingError, MongoError};
use crate::flags::QueryFlag;
use crate::CommandAndFindOptions;
use std::collections::VecDeque;

verus! {

/// What the driver reported for one poll of a cursor.
pub struct CursorReply {
    /// Whether the driver says that more documents may come.
    pub has_more: bool,
    /// The raw document that the fetch handed out, if it succeeded.
    pub document: Option<Vec<u8>>,
    /// The cursor's error after the fetch; domain and code zero for none.
    pub error: BsoncError,
    /// Whether the server-side cursor is still alive.
    pub alive: bool,
}

/// The parts of a reply that the decision depends on.
pub struct ReplyModel {
    pub has_more: bool,
    pub document: Option<Seq<u8>>,
    pub failed: bool,
    pub alive: bool,
}

impl View for CursorReply {
    type V = ReplyModel;

    open spec fn view(&self) -> ReplyModel {
        ReplyModel {
            has_more: self.has_more,
            document: match self.document {
                Some(b) => Some(b@),
                None => None,
            },
            failed: !(self.error.info().domain == 0 && self.error.info().code == 0),
            alive: self.alive,
        }
    }
}

/// What one poll of a cursor gives.
pub enum CursorStep {
    /// A document, or the error that stands in its place.
    Item(Result<Document, MongoError>),
    /// Nothing yet: wait this many milliseconds and poll again.
    Wait(u64),
    /// The cursor is exhausted.
    End,
}

/// The model of a poll's result.
pub enum Outcome {
    Document(Seq<(Seq<char>, Bson)>),
    DecodeFailed(DecodingError),
    DriverFailed,
    Wait(u64),
    End,
}

impl View for CursorStep {
    type V = Outcome;

    open spec fn view(&self) -> Outcome {
        match self {
            CursorStep::Item(Ok(d)) => Outcome::Document(d@),
            CursorStep::Item(Err(MongoError::Decoder(e))) => Outcome::DecodeFailed(*e),
            CursorStep::Item(Err(_)) => Outcome::DriverFailed,
            CursorStep::Wait(ms) => Outcome::Wait(*ms),
            CursorStep::End => Outcome::End,
        }
    }
}

/// The state of a cursor over one query.
#[derive(Clone, Copy, Debug, PartialEq, Eq, Structural)]
pub struct Cursor {
    /// Whether the cursor waits for new documents instead of ending.
    pub tailing: bool,
    /// Milliseconds to wait between polls of a tailing cursor.
    pub tail_wait_ms: u64,
    /// Whether the cursor has ended, exhausted or failed; it then gives nothing more.
    pub done: bool,
}

/// One poll: the next state, and what the poll gives.
pub open spec fn cursor_step(c: Cursor, r: ReplyModel) -> (Cursor, Outcome) {
    let finished = Cursor { done: true, ..c };
    if c.done {
        (c, Outcome::End)
    } else if !r.has_more && !c.tailing {
        (finished, Outcome::End)
    } else {
        match r.document {
            Some(b) => (
                c,
                match parse_document(b, true) {
                    Ok(d) => Outcome::Document(d),
                    Err(e) => Outcome::DecodeFailed(e),
                },
            ),
            None => if r.failed {
                (finished, Outcome::DriverFailed)
            } else if c.tailing && r.alive {
                (c, Outcome::Wait(c.tail_wait_ms))
            } else {
                (finished, Outcome::End)
            },
        }
    }
}

impl Cursor {
    /// A fresh cursor that ends when the results run out.
    pub fn new() -> (r: Cursor)
        ensures
            r == (Cursor { tailing: false, tail_wait_ms: 0, done: false }),
    {
        Cursor { tailing: false, tail_wait_ms: 0, done: false }
    }

    /// A fresh cursor that waits `wait_ms` milliseconds between polls for new results.
    pub fn new_tailing(wait_ms: u64) -> (r: Cursor)
        ensures
            r == (Cursor { tailing: true, tail_wait_ms: wait_ms, done: false }),
    {
        Cursor { tailing: true, tail_wait_ms: wait_ms, done: false }
    }

    /// Whether the driver should be asked for the next document, given
    /// whether it says that more may come.
    pub fn should_fetch(&self, has_more: bool) -> (r: bool)
        ensures
            r == (!self.done && (has_more || self.tailing)),
    {
        !self.done && (has_more || self.tailing)
    }

    /// Takes the driver's reply to one poll and says what it gives.
    pub fn on_reply(&mut self, reply: CursorReply) -> (r: CursorStep)
        ensures
            (*final(self), r@) == cursor_step(*old(self), reply@),
            !old(self).done && (reply.has_more || old(self).tailing) && reply.document is None
                && !(reply.error.info().domain == 0 && reply.error.info().code == 0)
                ==> r == CursorStep::Item(Err(MongoError::Bsonc(reply.error))),
    {
        if self.done {
            return CursorStep::End;
        }
        if !reply.has_more && !self.tailing {
            self.done = true;
            return CursorStep::End;
        }
        match reply.document {
            Some(raw) => match decode_utf8_lossy(raw.as_slice()) {
                Ok(d) => CursorStep::Item(Ok(d)),
                Err(e) => CursorStep::Item(Err(MongoError::Decoder(e))),
            },
            None => {
                if !reply.error.is_empty() {
                    self.done = true;
                    CursorStep::Item(Err(MongoError::Bsonc(reply.error)))
                } else if self.tailing && reply.alive {
                    CursorStep::Wait(self.tail_wait_ms)
                } else {
                    self.done = true;
                    CursorStep::End
                }
            },
        }
    }
}

/// A driver over a fixed result set: the `k`-th poll hands out the `k`-th
/// raw document, and after the last one the driver says that no more come.
pub open spec fn fixed_reply(items: Seq<Seq<u8>>, k: int) -> ReplyModel {
    if 0 <= k < items.len() {
        ReplyModel { has_more: true, document: Some(items[k]), failed: false, alive: true }
    } else {
        ReplyModel { has_more: false, document: None, failed: false, alive: false }
    }
}

/// What `n` polls give, from state `c`, against the fixed result set from poll `k` on.
pub open spec fn run_fixed(c: Cursor, items: Seq<Seq<u8>>, k: int, n: nat) -> Seq<Outcome>
    decreases n,
{
    if n == 0 {
        Seq::empty()
    } else {
        let (c2, o) = cursor_step(c, fixed_reply(items, k));
        seq![o] + run_fixed(c2, items, k + 1, (n - 1) as nat)
    }
}

proof fn lemma_run_done(c: Cursor, items: Seq<Seq<u8>>, k: int, n: nat)
    requires
        c.done,
    ensures
        run_fixed(c, items, k, n) == Seq::new(n, |i: int| Outcome::End),
    decreases n,
{
    if n > 0 {
        lemma_run_done(c, items, k + 1, (n - 1) as nat);
        assert(run_fixed(c, items, k, n) =~= Seq::new(n, |i: int| Outcome::End));
    } else {
        assert(run_fixed(c, items, k, n) =~= Seq::new(n, |i: int| Outcome::End));
    }
}

proof fn lemma_run_from(items: Seq<Seq<u8>>, docs: Seq<Seq<(Seq<char>, Bson)>>, k: int, extra: nat)
    requires
        items.len() == docs.len(),
        0 <= k <= items.len(),
        forall|i: int| 0 <= i < items.len() ==> parse_document(#[trigger] items[i], true) == Ok::<Seq<(Seq<char>, Bson)>, DecodingError>(docs[i]),
    ensures
        run_fixed(Cursor { tailing: false, tail_wait_ms: 0, done: false }, items, k, (items.len() - k + extra + 1) as nat)
            == Seq::new((items.len() - k) as nat, |i: int| Outcome::Document(docs[k + i])) + Seq::new(extra + 1, |i: int| Outcome::End),
    decreases items.len() - k,
{
    let c = Cursor { tailing: false, tail_wait_ms: 0, done: false };
    let n = (items.len() - k + extra + 1) as nat;
    if k == items.len() {
        lemma_run_done(Cursor { done: true, ..c }, items, k + 1, extra);
        assert(run_fixed(c, items, k, n) =~= Seq::new((items.len() - k) as nat, |i: int| Outcome::Document(docs[k + i]))
            + Seq::new(extra + 1, |i: int| Outcome::End));
    } else {
        lemma_run_from(items, docs, k + 1, extra);
        assert(run_fixed(c, items, k, n) =~= Seq::new((items.len() - k) as nat, |i: int| Outcome::Document(docs[k + i]))
            + Seq::new(extra + 1, |i: int| Outcome::End));
    }
}

/// A fresh non-tailing cursor over a fixed result set of N documents gives
/// the N documents in order, then ends, and keeps ending on every later poll.
pub proof fn lemma_cursor_exhaustion(items: Seq<Seq<u8>>, docs: Seq<Seq<(Seq<char>, Bson)>>, extra: nat)
    requires
        items.len() == docs.len(),
        forall|i: int| 0 <= i < items.len() ==> parse_document(#[trigger] items[i], true) == Ok::<Seq<(Seq<char>, Bson)>, DecodingError>(docs[i]),
    ensures
        run_fixed(Cursor { tailing: false, tail_wait_ms: 0, done: false }, items, 0, items.len() + extra + 1)
            == docs.map_values(|d: Seq<(Seq<char>, Bson)>| Outcome::Document(d)) + Seq::new(extra + 1, |i: int| Outcome::End),
{
    lemma_run_from(items, docs, 0, extra);
    assert(Seq::new(items.len(), |i: int| Outcome::Document(docs[0 + i])) =~= docs.map_values(|d: Seq<(Seq<char>, Bson)>| Outcome::Document(d)));
}

/// What one poll of a change stream gives: the document it handed out, the
/// error it reports, or the end when there is neither.
pub fn change_stream_item(document: Option<Vec<u8>>, error: BsoncError) -> (r: Option<Result<Document, MongoError>>)
    ensures
        match document {
            Some(b) => match parse_document(b@, true) {
                Ok(d) => r matches Some(Ok(x)) && x@ == d,
                Err(e) => r == Some(Err::<Document, MongoError>(MongoError::Decoder(e))),
            },
            None => if error.info().domain == 0 && error.info().code == 0 {
                r is None
            } else {
                r == Some(Err::<Document, MongoError>(MongoError::Bsonc(error)))
            },
        },
{
    match document {
        Some(raw) => match decode_utf8_lossy(raw.as_slice()) {
            Ok(d) => Some(Ok(d)),
            Err(e) => Some(Err(MongoError::Decoder(e))),
        },
        None => if error.is_empty() {
            None
        } else {
            Some(Err(MongoError::Bsonc(error)))
        },
    }
}

/// The state of a tailing cursor.
pub struct TailingCursor {
    query: Document,
    find_options: CommandAndFindOptions,
    tail_options: TailOptions,
    has_cursor: bool,
    last_seen_id: Option<ObjectId>,
    retry_count: u32,
    done: bool,
}

/// The model of a tailing cursor's state.
pub struct TailModel {
    /// The query that the next inner cursor runs.
    pub query: Seq<(Seq<char>, Bson)>,
    pub wait_ms: u64,
    pub max_retries: u32,
    /// Whether an inner cursor is open.
    pub has_cursor: bool,
    /// The id of the last document handed out and not yet built into the query.
    pub last_seen: Option<Seq<u8>>,
    /// Failures since the last document.
    pub retry_count: u32,
    /// Whether an error was reported after the retries ran out.
    pub done: bool,
}

impl View for TailingCursor {
    type V = TailModel;

    closed spec fn view(&self) -> TailModel {
        TailModel {
            query: self.query@,
            wait_ms: self.tail_options.wait_duration_ms,
            max_retries: self.tail_options.max_retries,
            has_cursor: self.has_cursor,
            last_seen: match self.last_seen_id {
                Some(id) => Some(id.bytes@),
                None => None,
            },
            retry_count: self.retry_count,
            done: self.done,
        }
    }
}

/// What a tailing cursor asks for next.
pub enum TailAction {
    /// Open an inner tailing cursor on this query, then report with `opened`.
    Open(Document),
    /// Take one item from the inner cursor and hand it to `on_item`.
    Pull,
    /// Nothing more comes.
    End,
}

pub enum TailActionModel {
    Open(Seq<(Seq<char>, Bson)>),
    Pull,
    End,
}

impl View for TailAction {
    type V = TailActionModel;

    open spec fn view(&self) -> TailActionModel {
        match self {
            TailAction::Open(q) => TailActionModel::Open(q@),
            TailAction::Pull => TailActionModel::Pull,
            TailAction::End => TailActionModel::End,
        }
    }
}

/// What the inner cursor gave, in the model.
pub enum ItemModel {
    Document(Seq<(Seq<char>, Bson)>),
    Failed,
    Nothing,
}

pub open spec fn item_model(item: Option<Result<Document, MongoError>>) -> ItemModel {
    match item {
        Some(Ok(d)) => ItemModel::Document(d@),
        Some(Err(_)) => ItemModel::Failed,
        None => ItemModel::Nothing,
    }
}

/// What a tailing cursor does with an item of its inner cursor.
pub enum TailStep {
    /// Hand this out.
    Yield(Result<Document, MongoError>),
    /// The inner cursor was dropped: ask for the next action again.
    Retry,
}

pub enum TailStepModel {
    Yielded(Seq<(Seq<char>, Bson)>),
    Surfaced,
    Retry,
}

impl View for TailStep {
    type V = TailStepModel;

    open spec fn view(&self) -> TailStepModel {
        match self {
            TailStep::Yield(Ok(d)) => TailStepModel::Yielded(d@),
            TailStep::Yield(Err(_)) => TailStepModel::Surfaced,
            TailStep::Retry => TailStepModel::Retry,
        }
    }
}

/// The query narrowed to ids greater than `last`, where there is one.
pub open spec fn resume_query(q: Seq<(Seq<char>, Bson)>, last: Option<Seq<u8>>) -> Seq<(Seq<char>, Bson)> {
    match last {
        Some(id) => put(q, "_id"@, Bson::Document(seq![("$gt"@, Bson::ObjectId(id))])),
        None => q,
    }
}

/// The next action of a tailing cursor, and its state after asking.
pub open spec fn tail_next_action(m: TailModel) -> (TailModel, TailActionModel) {
    if m.done {
        (m, TailActionModel::End)
    } else if m.has_cursor {
        (m, TailActionModel::Pull)
    } else {
        let q = resume_query(m.query, m.last_seen);
        (TailModel { query: q, last_seen: None, ..m }, TailActionModel::Open(q))
    }
}

/// Opening an inner cursor failed: the failure is handed out, no retry is
/// counted, and the next action asks to open again.
pub open spec fn tail_open_failed(m: TailModel) -> (TailModel, TailStepModel) {
    (m, TailStepModel::Surfaced)
}

/// The state after an inner cursor was opened.
pub open spec fn tail_opened(m: TailModel) -> TailModel {
    TailModel { has_cursor: true, ..m }
}

/// What a tailing cursor makes of one item of its inner cursor.
pub open spec fn tail_on_item(m: TailModel, item: ItemModel) -> (TailModel, TailStepModel) {
    match item {
        ItemModel::Document(d) => (
            TailModel {
                retry_count: 0,
                last_seen: match lookup(d, "_id"@) {
                    Some(Bson::ObjectId(id)) => Some(id),
                    _ => m.last_seen,
                },
                ..m
            },
            TailStepModel::Yielded(d),
        ),
        ItemModel::Failed => if m.retry_count >= m.max_retries {
            (TailModel { done: true, ..m }, TailStepModel::Surfaced)
        } else {
            (TailModel { retry_count: (m.retry_count + 1) as u32, has_cursor: false, ..m }, TailStepModel::Retry)
        },
        ItemModel::Nothing => (
            TailModel {
                retry_count: if m.retry_count < u32::MAX { (m.retry_count + 1) as u32 } else { m.retry_count },
                has_cursor: false,
                ..m
            },
            TailStepModel::Retry,
        ),
    }
}

impl TailingCursor {
    /// A tailing cursor over `query`, with no inner cursor yet. The find
    /// options gain the flags that make a query tailable and wait for data.
    pub fn new(query: Document, find_options: CommandAndFindOptions, tail_options: TailOptions) -> (r: TailingCursor)
        ensures
            r.spec_find_options().query_flags@ == find_options.query_flags@.insert(QueryFlag::TailableCursor).insert(
                QueryFlag::AwaitData,
            ),
            r.spec_find_options().skip == find_options.skip,
            r.spec_find_options().limit == find_options.limit,
            r.spec_find_options().batch_size == find_options.batch_size,
            r@ == (TailModel {
                query: query@,
                wait_ms: tail_options.wait_duration_ms,
                max_retries: tail_options.max_retries,
                has_cursor: false,
                last_seen: None,
                retry_count: 0,
                done: false,
            }),
    {
        let mut find_options = find_options;
        find_options.query_flags.add(QueryFlag::TailableCursor);
        find_options.query_flags.add(QueryFlag::AwaitData);
        TailingCursor { query, find_options, tail_options, has_cursor: false, last_seen_id: None, retry_count: 0, done: false }
    }

    pub closed spec fn spec_find_options(&self) -> CommandAndFindOptions {
        self.find_options
    }

    /// The options that each inner cursor is opened with.
    pub fn find_options(&self) -> (r: &CommandAndFindOptions)
        ensures
            *r == self.spec_find_options(),
    {
        &self.find_options
    }

    /// Milliseconds that the inner cursor waits between polls.
    pub fn wait_duration_ms(&self) -> (r: u64)
        ensures
            r == self@.wait_ms,
    {
        self.tail_options.wait_duration_ms
    }

    /// What to do next: open an inner cursor, pull from it, or stop.
    pub fn next_action(&mut self) -> (r: TailAction)
        ensures
            (final(self)@, r@) == tail_next_action(old(self)@),
    {
        if self.done {
            return TailAction::End;
        }
        if self.has_cursor {
            return TailAction::Pull;
        }
        match self.last_seen_id {
            Some(id) => {
                let mut filter = Document::new();
                filter.insert("$gt", Value::ObjectId(id));
                self.query.insert("_id", Value::Document(filter));
                self.last_seen_id = None;
            },
            None => {},
        }
        TailAction::Open(self.query.deep_copy())
    }

    /// The inner cursor asked for was opened.
    pub fn opened(&mut self)
        ensures
            final(self)@ == tail_opened(old(self)@),
    {
        self.has_cursor = true;
    }

    /// Opening the inner cursor asked for failed with `e`.
    pub fn open_failed(&mut self, e: MongoError) -> (r: TailStep)
        ensures
            (final(self)@, r@) == tail_open_failed(old(self)@),
            r == TailStep::Yield(Err::<Document, MongoError>(e)),
    {
        TailStep::Yield(Err(e))
    }

    /// Takes one item of the inner cursor: hands out a document, retries after
    /// a failure while retries remain, or reports the failure.
    pub fn on_item(&mut self, item: Option<Result<Document, MongoError>>) -> (r: TailStep)
        ensures
            (final(self)@, r@) == tail_on_item(old(self)@, item_model(item)),
            r matches TailStep::Yield(Err(e)) ==> item == Some(Err::<Document, MongoError>(e)),
    {
        match item {
            Some(Ok(doc)) => {
                self.retry_count = 0;
                if let Ok(id) = doc.as_object_id("_id") {
                    self.last_seen_id = Some(id);
                }
                TailStep::Yield(Ok(doc))
            },
            Some(Err(e)) => {
                if self.retry_count >= self.tail_options.max_retries {
                    self.done = true;
                    TailStep::Yield(Err(e))
                } else {
                    self.retry_count = self.retry_count + 1;
                    self.has_cursor = false;
                    TailStep::Retry
                }
            },
            None => {
                if self.retry_count < u32::MAX {
                    self.retry_count = self.retry_count + 1;
                }
                self.has_cursor = false;
                TailStep::Retry
            },
        }
    }
}

/// Reopening after a failure: the next action, then the inner cursor opened.
pub open spec fn reconnect(m: TailModel) -> TailModel {
    tail_opened(tail_next_action(m).0)
}

/// What `n` failures in a row give, with a reconnect after each retry.
pub open spec fn failures(m: TailModel, n: nat) -> Seq<TailStepModel>
    decreases n,
{
    if n == 0 {
        Seq::empty()
    } else {
        let (m1, s) = tail_on_item(m, ItemModel::Failed);
        seq![s] + failures(reconnect(m1), (n - 1) as nat)
    }
}

proof fn lemma_failures_from(m: TailModel)
    requires
        !m.done,
        m.retry_count <= m.max_retries,
    ensures
        failures(m, (m.max_retries - m.retry_count + 1) as nat)
            == Seq::new((m.max_retries - m.retry_count) as nat, |i: int| TailStepModel::Retry) + seq![TailStepModel::Surfaced],
    decreases m.max_retries - m.retry_count,
{
    let n = (m.max_retries - m.retry_count + 1) as nat;
    let k = (m.max_retries - m.retry_count) as nat;
    let (m1, s) = tail_on_item(m, ItemModel::Failed);
    if m.retry_count < m.max_retries {
        let m2 = reconnect(m1);
        assert(s == TailStepModel::Retry);
        assert(m2.retry_count == m.retry_count + 1 && m2.max_retries == m.max_retries && !m2.done);
        lemma_failures_from(m2);
        assert(failures(m, n) == seq![s] + failures(m2, (n - 1) as nat));
        assert(failures(m, n) =~= Seq::new(k, |i: int| TailStepModel::Retry) + seq![TailStepModel::Surfaced]);
    } else {
        assert(s == TailStepModel::Surfaced);
        assert(failures(m, n) == seq![s] + failures(reconnect(m1), 0));
        assert(failures(m, n) =~= Seq::new(k, |i: int| TailStepModel::Retry) + seq![TailStepModel::Surfaced]);
    }
}

/// With at most R retries, R + 1 failures in a row after a document are
/// retried R times, and the last of them is reported.
pub proof fn lemma_retry_bound(m: TailModel)
    requires
        !m.done,
        m.retry_count == 0,
    ensures
        failures(m, m.max_retries as nat + 1)
            == Seq::new(m.max_retries as nat, |i: int| TailStepModel::Retry) + seq![TailStepModel::Surfaced],
{
    lemma_failures_from(m);
}

/// After a document with id `id` is handed out, a failure that is retried
/// makes the cursor reopen on a query that asks for ids greater than `id`.
pub proof fn lemma_resume_after(m: TailModel, d: Seq<(Seq<char>, Bson)>, id: Seq<u8>)
    requires
        !m.done,
        m.max_retries > 0,
        lookup(d, "_id"@) == Some(Bson::ObjectId(id)),
    ensures
        ({
            let (m1, s1) = tail_on_item(m, ItemModel::Document(d));
            let (m2, s2) = tail_on_item(m1, ItemModel::Failed);
            let (m3, a) = tail_next_action(m2);
            &&& s1 == TailStepModel::Yielded(d)
            &&& s2 == TailStepModel::Retry
            &&& a matches TailActionModel::Open(q) && lookup(q, "_id"@) == Some(
                Bson::Document(seq![("$gt"@, Bson::ObjectId(id))]),
            )
        }),
{
    let m1 = tail_on_item(m, ItemModel::Document(d)).0;
    let m2 = tail_on_item(m1, ItemModel::Failed).0;
    lemma_lookup_put(m2.query, "_id"@, Bson::Document(seq![("$gt"@, Bson::ObjectId(id))]));
}

/// The id of a server-side cursor: a 64-bit or 32-bit integer under "id".
pub open spec fn cursor_id_of(c: Seq<(Seq<char>, Bson)>) -> Option<i64> {
    match lookup(c, "id"@) {
        Some(Bson::I64(x)) => Some(x),
        Some(Bson::I32(x)) => Some(x as i64),
        _ => None,
    }
}

pub open spec fn inner_document(v: Bson) -> Seq<(Seq<char>, Bson)> {
    match v {
        Bson::Document(d) => d,
        _ => Seq::empty(),
    }
}

/// The documents of an array, if every element is a document.
pub open spec fn documents_of(items: Seq<(Seq<char>, Bson)>) -> Option<Seq<Seq<(Seq<char>, Bson)>>> {
    if forall|i: int| 0 <= i < items.len() ==> #[trigger] items[i].1 is Document {
        Some(Seq::new(items.len(), |i: int| inner_document(items[i].1)))
    } else {
        None
    }
}

/// The batch under `key`: absent (`Ok(None)`), an array of documents, or
/// something else (`Err`).
pub open spec fn batch_field(c: Seq<(Seq<char>, Bson)>, key: Seq<char>) -> Result<Option<Seq<Seq<(Seq<char>, Bson)>>>, ()> {
    match lookup(c, key) {
        None => Ok(None),
        Some(Bson::Array(items)) => match documents_of(items) {
            Some(ds) => Ok(Some(ds)),
            None => Err(()),
        },
        Some(_) => Err(()),
    }
}

/// The error of an envelope that does not have the expected shape.
pub open spec fn envelope_error() -> MongoError {
    MongoError::ValueAccessError(FieldAccessError::NotPresent)
}

/// A batch envelope `{cursor: {id, firstBatch | nextBatch}}`: the batch and
/// the cursor id, or nothing when the id is zero and no batch is there. A
/// nonzero id without a batch is a decoding error; any other shape is
/// reported as a missing value.
pub open spec fn batch_of(d: Seq<(Seq<char>, Bson)>) -> Result<Option<(Seq<Seq<(Seq<char>, Bson)>>, i64)>, MongoError> {
    match lookup(d, "cursor"@) {
        Some(Bson::Document(c)) => match cursor_id_of(c) {
            None => Err(envelope_error()),
            Some(id) => match batch_field(c, "firstBatch"@) {
                Err(_) => Err(envelope_error()),
                Ok(Some(ds)) => Ok(Some((ds, id))),
                Ok(None) => match batch_field(c, "nextBatch"@) {
                    Err(_) => Err(envelope_error()),
                    Ok(Some(ds)) => Ok(Some((ds, id))),
                    Ok(None) => if id == 0 {
                        Ok(None)
                    } else {
                        Err(MongoError::Decoder(DecodingError::Malformed))
                    },
                },
            },
        },
        _ => Err(envelope_error()),
    }
}

pub open spec fn documents_model(v: Seq<Document>) -> Seq<Seq<(Seq<char>, Bson)>> {
    Seq::new(v.len(), |i: int| v[i]@)
}

pub open spec fn batch_result(r: Result<Option<(Vec<Document>, i64)>, MongoError>) -> Result<Option<(Seq<Seq<(Seq<char>, Bson)>>, i64)>, MongoError> {
    match r {
        Ok(Some((v, id))) => Ok(Some((documents_model(v@), id))),
        Ok(None) => Ok(None),
        Err(e) => Err(e),
    }
}

/// The documents of an array, if every element is a document.
fn array_documents(arr: &Document) -> (r: Option<Vec<Document>>)
    ensures
        match documents_of(arr@) {
            Some(ds) => r matches Some(v) && documents_model(v@) == ds,
            None => r is None,
        },
{
    proof {
        lemma_fields_model(arr.spec_entries());
    }
    let mut out: Vec<Document> = Vec::new();
    let mut i: usize = 0;
    while i < arr.fields().len()
        invariant
            0 <= i <= arr.spec_entries().len(),
            arr@.len() == arr.spec_entries().len(),
            forall|j: int| 0 <= j < arr.spec_entries().len() ==> #[trigger] arr@[j] == (arr.spec_entries()[j].0@, value_model(arr.spec_entries()[j].1)),
            out@.len() == i,
            forall|j: int| 0 <= j < i ==> (#[trigger] arr@[j]).1 is Document,
            forall|j: int| 0 <= j < i ==> (#[trigger] out@[j])@ == inner_document(arr@[j].1),
        decreases arr.spec_entries().len() - i,
    {
        let c = match &arr.fields()[i].1 {
            Value::Document(d) => d.deep_copy(),
            _ => {
                assert(!(arr@[i as int].1 is Document));
                return None;
            },
        };
        assert(arr@[i as int].1 == Bson::Document(c@));
        let ghost before = out@;
        out.push(c);
        assert forall|j: int| 0 <= j < i + 1 implies (#[trigger] out@[j])@ == inner_document(arr@[j].1) by {
            if j < i {
                assert(out@[j] == before[j]);
            }
        }
        i = i + 1;
    }
    assert forall|j: int| 0 <= j < arr@.len() implies #[trigger] arr@[j].1 is Document by {
        assert(arr@[j].1 is Document);
    }
    assert(documents_model(out@) =~= Seq::new(arr@.len(), |j: int| inner_document(arr@[j].1)));
    Some(out)
}

/// The batch under `key` of a cursor document.
fn get_batch(c: &Document, key: &str) -> (r: Result<Option<Vec<Document>>, ()>)
    ensures
        match batch_field(c@, key@) {
            Ok(Some(ds)) => r matches Ok(Some(v)) && documents_model(v@) == ds,
            Ok(None) => r == Ok::<Option<Vec<Document>>, ()>(None),
            Err(_) => r is Err,
        },
{
    match c.get(key) {
        None => Ok(None),
        Some(Value::Array(items)) => match array_documents(&items) {
            Some(ds) => Ok(Some(ds)),
            None => Err(()),
        },
        Some(_) => Err(()),
    }
}

/// Reads a batch envelope: the documents of `firstBatch` or `nextBatch`,
/// and the server-side cursor id.
pub fn batch_to_array(doc: &Document) -> (r: Result<Option<(Vec<Document>, i64)>, MongoError>)
    ensures
        batch_result(r) == batch_of(doc@),
{
    let c = match doc.get("cursor") {
        Some(Value::Document(c)) => c,
        _ => {
            return Err(MongoError::ValueAccessError(FieldAccessError::NotPresent));
        },
    };
    let id: i64 = match c.get("id") {
        Some(Value::I64(x)) => x,
        Some(Value::I32(x)) => x as i64,
        _ => {
            return Err(MongoError::ValueAccessError(FieldAccessError::NotPresent));
        },
    };
    match get_batch(&c, "firstBatch") {
        Err(_) => Err(MongoError::ValueAccessError(FieldAccessError::NotPresent)),
        Ok(Some(ds)) => Ok(Some((ds, id))),
        Ok(None) => match get_batch(&c, "nextBatch") {
            Err(_) => Err(MongoError::ValueAccessError(FieldAccessError::NotPresent)),
            Ok(Some(ds)) => Ok(Some((ds, id))),
            Ok(None) => if id == 0 {
                Ok(None)
            } else {
                Err(MongoError::Decoder(DecodingError::Malformed))
            },
        },
    }
}

/// The state of a cursor over a batched command: the documents of the
/// current batch not yet handed out, and the server-side cursor id.
pub struct BatchCursor {
    /// The pending documents, the next one first.
    pending: VecDeque<Document>,
    cursor_id: Option<i64>,
    coll_name: String,
    fetched_more: bool,
}

/// The model of a batch cursor's state.
pub struct BatchModel {
    /// The pending documents, the next one first.
    pub queue: Seq<Seq<(Seq<char>, Bson)>>,
    pub cursor_id: Option<i64>,
    pub coll_name: Seq<char>,
    /// Whether the current call has already asked for another batch.
    pub fetched_more: bool,
}

impl View for BatchCursor {
    type V = BatchModel;

    closed spec fn view(&self) -> BatchModel {
        BatchModel {
            queue: Seq::new(self.pending@.len(), |i: int| self.pending@[i]@),
            cursor_id: self.cursor_id,
            coll_name: self.coll_name@,
            fetched_more: self.fetched_more,
        }
    }
}

/// What a batch cursor asks for next.
pub enum BatchAction {
    /// Hand this out.
    Yield(Result<Document, MongoError>),
    /// Take one item from the inner cursor and hand it to `on_pulled`.
    Pull,
    /// Run this command, make its cursor the inner one, and report with `on_get_more`.
    GetMore(Document),
    /// Nothing more comes.
    End,
}

pub enum BatchActionModel {
    Yield(Seq<(Seq<char>, Bson)>),
    Fail,
    Pull,
    GetMore(Seq<(Seq<char>, Bson)>),
    End,
}

impl View for BatchAction {
    type V = BatchActionModel;

    open spec fn view(&self) -> BatchActionModel {
        match self {
            BatchAction::Yield(Ok(d)) => BatchActionModel::Yield(d@),
            BatchAction::Yield(Err(_)) => BatchActionModel::Fail,
            BatchAction::Pull => BatchActionModel::Pull,
            BatchAction::GetMore(c) => BatchActionModel::GetMore(c@),
            BatchAction::End => BatchActionModel::End,
        }
    }
}

/// The command that asks for the next batch of a server-side cursor.
pub open spec fn get_more_command(id: i64, coll: Seq<char>) -> Seq<(Seq<char>, Bson)> {
    seq![("getMore"@, Bson::I64(id)), ("collection"@, Bson::String(coll))]
}

/// The start of a call: the front of the queue, or a pull.
pub open spec fn batch_begin(m: BatchModel) -> (BatchModel, BatchActionModel) {
    if m.queue.len() > 0 {
        (BatchModel { queue: m.queue.drop_first(), ..m }, BatchActionModel::Yield(m.queue[0]))
    } else {
        (BatchModel { fetched_more: false, ..m }, BatchActionModel::Pull)
    }
}

/// Nothing came from the inner cursor: ask for another batch once per call,
/// while the server-side cursor id is not zero.
pub open spec fn batch_exhausted(m: BatchModel) -> (BatchModel, BatchActionModel) {
    match m.cursor_id {
        Some(id) => if id != 0 && !m.fetched_more {
            (BatchModel { fetched_more: true, ..m }, BatchActionModel::GetMore(get_more_command(id, m.coll_name)))
        } else {
            (m, BatchActionModel::End)
        },
        None => (m, BatchActionModel::End),
    }
}

/// What a batch cursor makes of an item of its inner cursor.
pub open spec fn batch_on_pulled(m: BatchModel, item: ItemModel) -> (BatchModel, BatchActionModel) {
    match item {
        ItemModel::Document(d) => match batch_of(d) {
            Err(_) => (m, BatchActionModel::Fail),
            Ok(b) => {
                let m1 = match b {
                    Some((ds, id)) => BatchModel { queue: ds, cursor_id: Some(id), ..m },
                    None => m,
                };
                if m1.queue.len() > 0 {
                    (BatchModel { queue: m1.queue.drop_first(), ..m1 }, BatchActionModel::Yield(m1.queue[0]))
                } else {
                    batch_exhausted(m1)
                }
            },
        },
        _ => batch_exhausted(m),
    }
}

/// The command for another batch ran: pull from its cursor if it succeeded.
pub open spec fn batch_on_get_more(m: BatchModel, ok: bool) -> (BatchModel, BatchActionModel) {
    if ok {
        (m, BatchActionModel::Pull)
    } else {
        (m, BatchActionModel::End)
    }
}

impl BatchCursor {
    /// A batch cursor for a command on collection `coll_name`.
    pub fn new(coll_name: String) -> (r: BatchCursor)
        ensures
            r@ == (BatchModel { queue: Seq::empty(), cursor_id: None, coll_name: coll_name@, fetched_more: false }),
    {
        let r = BatchCursor { pending: VecDeque::new(), cursor_id: None, coll_name, fetched_more: false };
        assert(r@.queue =~= Seq::<Seq<(Seq<char>, Bson)>>::empty());
        r
    }

    /// Takes the front of the queue.
    fn pop_front(&mut self) -> (r: Document)
        requires
            old(self)@.queue.len() > 0,
        ensures
            r@ == old(self)@.queue[0],
            final(self)@ == (BatchModel { queue: old(self)@.queue.drop_first(), ..old(self)@ }),
    {
        let d = self.pending.pop_front().unwrap();
        proof {
            assert(final(self)@.queue =~= old(self)@.queue.drop_first());
        }
        d
    }

    /// Makes `docs` the queue, first document first.
    fn load(&mut self, docs: Vec<Document>)
        ensures
            final(self)@ == (BatchModel { queue: documents_model(docs@), ..old(self)@ }),
    {
        let mut docs = docs;
        let ghost all = docs@;
        let mut pending: VecDeque<Document> = VecDeque::new();
        while docs.len() > 0
            invariant
                docs@.len() <= all.len(),
                docs@ == all.subrange(0, docs@.len() as int),
                pending@ == all.subrange(docs@.len() as int, all.len() as int),
            decreases docs@.len(),
        {
            let d = docs.pop().unwrap();
            assert(d == all[docs@.len() as int]);
            pending.push_front(d);
            assert(pending@ =~= all.subrange(docs@.len() as int, all.len() as int));
        }
        self.pending = pending;
        proof {
            assert(final(self)@.queue =~= documents_model(all));
        }
    }

    /// The start of a call: the front of the queue, or a pull.
    pub fn begin(&mut self) -> (r: BatchAction)
        ensures
            (final(self)@, r@) == batch_begin(old(self)@),
    {
        if self.pending.len() > 0 {
            BatchAction::Yield(Ok(self.pop_front()))
        } else {
            self.fetched_more = false;
            BatchAction::Pull
        }
    }

    fn exhausted(&mut self) -> (r: BatchAction)
        ensures
            (final(self)@, r@) == batch_exhausted(old(self)@),
    {
        match self.cursor_id {
            Some(id) => {
                if id != 0 && !self.fetched_more {
                    self.fetched_more = true;
                    let mut command = Document::new();
                    command.insert("getMore", Value::I64(id));
                    command.insert("collection", Value::String(self.coll_name.clone()));
                    proof {
                        reveal_strlit("getMore");
                        reveal_strlit("collection");
                        assert("getMore"@.len() != "collection"@.len());
                        reveal_with_fuel(crate::document::key_index, 3);
                        assert(command@ =~= get_more_command(id, self.coll_name@));
                    }
                    BatchAction::GetMore(command)
                } else {
                    BatchAction::End
                }
            },
            None => BatchAction::End,
        }
    }

    /// Takes one item of the inner cursor.
    pub fn on_pulled(&mut self, item: Option<Result<Document, MongoError>>) -> (r: BatchAction)
        ensures
            (final(self)@, r@) == batch_on_pulled(old(self)@, item_model(item)),
            r matches BatchAction::Yield(Err(e)) ==> item matches Some(Ok(d)) && batch_of(d@) == Err::<
                Option<(Seq<Seq<(Seq<char>, Bson)>>, i64)>,
                MongoError,
            >(e),
    {
        match item {
            Some(Ok(doc)) => match batch_to_array(&doc) {
                Err(e) => BatchAction::Yield(Err(e)),
                Ok(b) => {
                    match b {
                        Some((ds, id)) => {
                            self.load(ds);
                            self.cursor_id = Some(id);
                        },
                        None => {},
                    }
                    if self.pending.len() > 0 {
                        BatchAction::Yield(Ok(self.pop_front()))
                    } else {
                        self.exhausted()
                    }
                },
            },
            _ => self.exhausted(),
        }
    }

    /// The command for another batch ran, and succeeded or not.
    pub fn on_get_more(&mut self, ok: bool) -> (r: BatchAction)
        ensures
            (final(self)@, r@) == batch_on_get_more(old(self)@, ok),
    {
        if ok {
            BatchAction::Pull
        } else {
            BatchAction::End
        }
    }
}

/// A server that answers a batched command with envelope `env1`, then ends
/// that cursor, and answers the one `getMore` with a cursor that yields
/// envelope `env2` and ends. `phase` counts what was handed out: 0 nothing,
/// 1 the first envelope, 2 the `getMore` ran, 3 the second envelope.
pub open spec fn two_batch_pull(env1: Seq<(Seq<char>, Bson)>, env2: Seq<(Seq<char>, Bson)>, phase: int) -> (int, ItemModel) {
    if phase == 0 {
        (1, ItemModel::Document(env1))
    } else if phase == 2 {
        (3, ItemModel::Document(env2))
    } else {
        (phase, ItemModel::Nothing)
    }
}

/// One call of a batch cursor against that server: the new state and phase,
/// the document handed out, and whether a `getMore` was issued.
pub open spec fn two_batch_call(
    env1: Seq<(Seq<char>, Bson)>,
    env2: Seq<(Seq<char>, Bson)>,
    m: BatchModel,
    phase: int,
) -> (BatchModel, int, Option<Seq<(Seq<char>, Bson)>>, bool) {
    let (m1, a1) = batch_begin(m);
    match a1 {
        BatchActionModel::Yield(d) => (m1, phase, Some(d), false),
        _ => {
            let (phase1, it1) = two_batch_pull(env1, env2, phase);
            let (m2, a2) = batch_on_pulled(m1, it1);
            match a2 {
                BatchActionModel::Yield(d) => (m2, phase1, Some(d), false),
                BatchActionModel::GetMore(_) => {
                    let (m3, _) = batch_on_get_more(m2, true);
                    let (phase3, it3) = two_batch_pull(env1, env2, 2);
                    let (m4, a4) = batch_on_pulled(m3, it3);
                    match a4 {
                        BatchActionModel::Yield(d) => (m4, phase3, Some(d), true),
                        _ => (m4, phase3, None, true),
                    }
                },
                _ => (m2, phase1, None, false),
            }
        },
    }
}

/// What `n` calls hand out, each with whether it issued a `getMore`.
pub open spec fn two_batch_run(
    env1: Seq<(Seq<char>, Bson)>,
    env2: Seq<(Seq<char>, Bson)>,
    m: BatchModel,
    phase: int,
    n: nat,
) -> Seq<(Option<Seq<(Seq<char>, Bson)>>, bool)>
    decreases n,
{
    if n == 0 {
        Seq::empty()
    } else {
        let (m1, phase1, d, g) = two_batch_call(env1, env2, m, phase);
        seq![(d, g)] + two_batch_run(env1, env2, m1, phase1, (n - 1) as nat)
    }
}

proof fn lemma_drain(
    env1: Seq<(Seq<char>, Bson)>,
    env2: Seq<(Seq<char>, Bson)>,
    m: BatchModel,
    phase: int,
    rest: nat,
)
    ensures
        two_batch_run(env1, env2, m, phase, m.queue.len() + rest)
            == Seq::new(m.queue.len(), |i: int| (Some(m.queue[i]), false))
            + two_batch_run(env1, env2, BatchModel { queue: Seq::empty(), ..m }, phase, rest),
    decreases m.queue.len(),
{
    let e = BatchModel { queue: Seq::empty(), ..m };
    if m.queue.len() == 0 {
        assert(m.queue =~= Seq::<Seq<(Seq<char>, Bson)>>::empty());
        assert(m == e);
        assert(Seq::new(m.queue.len(), |i: int| (Some(m.queue[i]), false)) + two_batch_run(env1, env2, e, phase, rest)
            =~= two_batch_run(env1, env2, e, phase, rest));
    } else {
        let m1 = BatchModel { queue: m.queue.drop_first(), ..m };
        lemma_drain(env1, env2, m1, phase, rest);
        assert(BatchModel { queue: Seq::empty(), ..m1 } == e);
        assert(two_batch_run(env1, env2, m, phase, m.queue.len() + rest)
            == seq![(Some(m.queue[0]), false)] + two_batch_run(env1, env2, m1, phase, m1.queue.len() + rest));
        assert(two_batch_run(env1, env2, m, phase, m.queue.len() + rest)
            =~= Seq::new(m.queue.len(), |i: int| (Some(m.queue[i]), false)) + two_batch_run(env1, env2, e, phase, rest));
    }
}

/// The call that runs out of the first batch: it issues the `getMore` and
/// hands out the first document of the second batch, if there is one; the
/// rest of the second batch follows, and then the end.
proof fn lemma_second_batch(
    env1: Seq<(Seq<char>, Bson)>,
    env2: Seq<(Seq<char>, Bson)>,
    b2: Seq<Seq<(Seq<char>, Bson)>>,
    coll: Seq<char>,
    m2: BatchModel,
)
    requires
        batch_of(env2) == Ok::<Option<(Seq<Seq<(Seq<char>, Bson)>>, i64)>, MongoError>(Some((b2, 0i64))),
        m2.queue.len() == 0,
        m2.coll_name == coll,
        m2.fetched_more,
        batch_on_get_more(m2, true).1 == BatchActionModel::Pull,
    ensures
        ({
            let (m4, phase3, d, g) = {
                let (m3, _) = batch_on_get_more(m2, true);
                let (phase3, it3) = two_batch_pull(env1, env2, 2);
                let (m4, a4) = batch_on_pulled(m3, it3);
                match a4 {
                    BatchActionModel::Yield(d) => (m4, phase3, Some(d), true),
                    _ => (m4, phase3, None, true),
                }
            };
            &&& phase3 == 3
            &&& g
            &&& b2.len() == 0 ==> d is None
            &&& b2.len() > 0 ==> d == Some(b2[0]) && two_batch_run(env1, env2, m4, phase3, b2.len() as nat)
                == Seq::new((b2.len() - 1) as nat, |i: int| (Some(b2[i + 1]), false)) + seq![(None::<Seq<(Seq<char>, Bson)>>, false)]
        }),
{
    let m3 = batch_on_get_more(m2, true).0;
    let m3b = BatchModel { queue: b2, cursor_id: Some(0i64), ..m3 };
    if b2.len() > 0 {
        let m4 = BatchModel { queue: b2.drop_first(), ..m3b };
        lemma_drain(env1, env2, m4, 3, 1);
        let e = BatchModel { queue: Seq::empty(), ..m4 };
        let (e1, q1, d1, g1) = two_batch_call(env1, env2, e, 3);
        assert(d1 is None && !g1);
        assert(two_batch_run(env1, env2, e1, q1, 0) == Seq::<(Option<Seq<(Seq<char>, Bson)>>, bool)>::empty());
        assert(two_batch_run(env1, env2, e, 3, 1) =~= seq![(None::<Seq<(Seq<char>, Bson)>>, false)]);
        assert(Seq::new(m4.queue.len(), |i: int| (Some(m4.queue[i]), false))
            =~= Seq::new((b2.len() - 1) as nat, |i: int| (Some(b2[i + 1]), false)));
    }
}

/// A batched command whose first batch holds B documents and whose `getMore`
/// returns C more hands out the B documents with no `getMore`, then the C
/// documents, the `getMore` going out with the first of them (or with the
/// end, when C is zero), each document once, and then ends.
pub proof fn lemma_batch_pagination(
    env1: Seq<(Seq<char>, Bson)>,
    env2: Seq<(Seq<char>, Bson)>,
    b1: Seq<Seq<(Seq<char>, Bson)>>,
    b2: Seq<Seq<(Seq<char>, Bson)>>,
    id: i64,
    coll: Seq<char>,
)
    requires
        batch_of(env1) == Ok::<Option<(Seq<Seq<(Seq<char>, Bson)>>, i64)>, MongoError>(Some((b1, id))),
        id != 0,
        batch_of(env2) == Ok::<Option<(Seq<Seq<(Seq<char>, Bson)>>, i64)>, MongoError>(Some((b2, 0i64))),
    ensures
        two_batch_run(
            env1,
            env2,
            BatchModel { queue: Seq::empty(), cursor_id: None, coll_name: coll, fetched_more: false },
            0,
            b1.len() + b2.len() + 1,
        ) == Seq::new(b1.len(), |i: int| (Some(b1[i]), false))
            + Seq::new(b2.len(), |i: int| (Some(b2[i]), i == 0))
            + seq![(None::<Seq<(Seq<char>, Bson)>>, b2.len() == 0)],
{
    let m0 = BatchModel { queue: Seq::empty(), cursor_id: None, coll_name: coll, fetched_more: false };
    let n = b1.len() + b2.len() + 1;
    let tail2 = Seq::new(b2.len(), |i: int| (Some(b2[i]), i == 0)) + seq![(None::<Seq<(Seq<char>, Bson)>>, b2.len() == 0)];
    // The state once the first batch is loaded, before its first document leaves.
    let ml = BatchModel { queue: b1, cursor_id: Some(id), coll_name: coll, fetched_more: false };
    // The state once the first batch is drained.
    let me = BatchModel { queue: Seq::empty(), ..ml };
    // The state after the `getMore` went out.
    let mg = BatchModel { fetched_more: true, ..me };
    lemma_second_batch(env1, env2, b2, coll, mg);
    // The call that finds the first batch drained issues the `getMore`.
    let (mb, ab) = batch_begin(me);
    assert(ab == BatchActionModel::Pull && mb == me);
    let (phase1, it1) = two_batch_pull(env1, env2, 1);
    assert(phase1 == 1 && it1 == ItemModel::Nothing);
    let (m2, a2) = batch_on_pulled(mb, it1);
    assert(m2 == mg && a2 is GetMore);
    let (mc, pc, dc, gc) = two_batch_call(env1, env2, me, 1);
    assert(two_batch_run(env1, env2, me, 1, (b2.len() + 1) as nat)
        == seq![(dc, gc)] + two_batch_run(env1, env2, mc, pc, b2.len() as nat));
    if b2.len() == 0 {
        assert(two_batch_run(env1, env2, mc, pc, 0) == Seq::<(Option<Seq<(Seq<char>, Bson)>>, bool)>::empty());
    }
    assert(two_batch_run(env1, env2, me, 1, (b2.len() + 1) as nat) =~= tail2);
    if b1.len() == 0 {
        assert(two_batch_call(env1, env2, m0, 0) == two_batch_call(env1, env2, me, 1));
        assert(two_batch_run(env1, env2, m0, 0, n) == two_batch_run(env1, env2, me, 1, n));
        assert(Seq::new(b1.len(), |i: int| (Some(b1[i]), false)) + tail2 =~= tail2);
    } else {
        let m1 = BatchModel { queue: b1.drop_first(), ..ml };
        lemma_drain(env1, env2, m1, 1, (b2.len() + 1) as nat);
        assert(BatchModel { queue: Seq::empty(), ..m1 } == me);
        assert(two_batch_run(env1, env2, m0, 0, n) == seq![(Some(b1[0]), false)] + two_batch_run(env1, env2, m1, 1, (n - 1) as nat));
        assert(two_batch_run(env1, env2, m0, 0, n) =~= Seq::new(b1.len(), |i: int| (Some(b1[i]), false)) + tail2);
    }
}

/// The number that an id's bytes spell, most significant first: the order
/// in which the server compares ids.
pub open spec fn id_value(b: Seq<u8>) -> nat
    decreases b.len(),
{
    if b.len() == 0 {
        0
    } else {
        id_value(b.drop_last()) * 256 + b.last() as nat
    }
}

/// The index of the first of `ids`, from `j` on, that is greater than `x`.
pub open spec fn first_greater(ids: Seq<Seq<u8>>, x: Seq<u8>, j: int) -> int
    decreases ids.len() - j,
{
    if j < 0 || j >= ids.len() || id_value(ids[j]) > id_value(x) {
        j
    } else {
        first_greater(ids, x, j + 1)
    }
}

/// Where a server whose documents carry `ids`, in insertion order, starts a
/// tailing query: after every id that the query's `{"$gt": x}` filter
/// excludes, or at the start when there is no such filter.
pub open spec fn resume_position(q: Seq<(Seq<char>, Bson)>, ids: Seq<Seq<u8>>) -> int {
    match lookup(q, "_id"@) {
        Some(Bson::Document(f)) => match lookup(f, "$gt"@) {
            Some(Bson::ObjectId(x)) => first_greater(ids, x, 0),
            _ => 0,
        },
        _ => 0,
    }
}

proof fn lemma_first_greater(ids: Seq<Seq<u8>>, k: int, j: int)
    requires
        0 <= j <= k + 1,
        0 <= k < ids.len(),
        forall|a: int, b: int| 0 <= a < b < ids.len() ==> id_value(#[trigger] ids[a]) < id_value(#[trigger] ids[b]),
    ensures
        first_greater(ids, ids[k], j) == k + 1,
    decreases ids.len() - j,
{
    if j == k + 1 && j < ids.len() {
        assert(id_value(ids[k]) < id_value(ids[j]));
    }
    if j <= k {
        if j < k {
            assert(id_value(ids[j]) < id_value(ids[k]));
        }
        lemma_first_greater(ids, k, j + 1);
    }
}

/// When ids grow with insertion order, a tailing cursor that handed out the
/// document with the `k`-th id and then lost its inner cursor reopens on a
/// query that the server starts right after that document: no document
/// already handed out comes again, and none after it is skipped.
pub proof fn lemma_resume_skips_seen(m: TailModel, d: Seq<(Seq<char>, Bson)>, ids: Seq<Seq<u8>>, k: int)
    requires
        !m.done,
        m.max_retries > 0,
        0 <= k < ids.len(),
        forall|a: int, b: int| 0 <= a < b < ids.len() ==> id_value(#[trigger] ids[a]) < id_value(#[trigger] ids[b]),
        lookup(d, "_id"@) == Some(Bson::ObjectId(ids[k])),
    ensures
        ({
            let (m1, s1) = tail_on_item(m, ItemModel::Document(d));
            let (m2, s2) = tail_on_item(m1, ItemModel::Failed);
            let (m3, a) = tail_next_action(m2);
            a matches TailActionModel::Open(q) && resume_position(q, ids) == k + 1
        }),
{
    lemma_resume_after(m, d, ids[k]);
    let filter = seq![("$gt"@, Bson::ObjectId(ids[k]))];
    reveal_with_fuel(crate::document::key_index, 2);
    assert(lookup(filter, "$gt"@) == Some(Bson::ObjectId(ids[k])));
    lemma_first_greater(ids, k, 0);
}

} // verus!
