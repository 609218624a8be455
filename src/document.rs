//! The BSON value model: documents, values and object ids.
use vstd::prelude::*;

verus! {

broadcast use vstd::std_specs::vec::group_vec_axioms, vstd::seq::group_seq_axioms;

/// Mathematical model of one BSON value.
pub enum Bson {
    /// A double, kept as its IEEE-754 bit pattern.
    Double(u64),
    String(Seq<char>),
    Document(Seq<(Seq<char>, Bson)>),
    Array(Seq<(Seq<char>, Bson)>),
    Binary(u8, Seq<u8>),
    ObjectId(Seq<u8>),
    Boolean(bool),
    /// Milliseconds since the Unix epoch.
    DateTime(i64),
    Null,
    I32(i32),
    I64(i64),
}

/// A 12-byte object identifier, compared byte by byte.
#[derive(Clone, Copy, Debug, PartialEq, Eq, Hash)]
pub struct ObjectId {
    pub bytes: [u8; 12],
}

/// One value of a document field.
#[derive(Debug, PartialEq)]
pub enum Value {
    /// A double, kept as its IEEE-754 bit pattern.
    Double(u64),
    String(String),
    Document(Document),
    /// An array, held as a document whose keys are "0", "1", ...
    Array(Document),
    Binary(u8, Vec<u8>),
    ObjectId(ObjectId),
    Boolean(bool),
    /// Milliseconds since the Unix epoch.
    DateTime(i64),
    Null,
    I32(i32),
    I64(i64),
}

/// An ordered mapping from keys to values; no two fields share a key.
#[derive(Debug, PartialEq)]
pub struct Document {
    fields: Vec<(String, Value)>,
}

impl Document {
    /// The fields, in order.
    pub closed spec fn spec_entries(&self) -> Seq<(String, Value)> {
        self.fields@
    }

    #[verifier::type_invariant]
    spec fn keys_are_distinct(&self) -> bool {
        keys_distinct(fields_model(self.fields@))
    }

    /// The fields, in order. No two of them share a key.
    pub fn fields(&self) -> (r: &Vec<(String, Value)>)
        ensures
            r@ == self.spec_entries(),
            keys_distinct(self@),
    {
        proof {
            use_type_invariant(self);
        }
        &self.fields
    }
}

/// A field's value is smaller than the document that holds it.
pub proof fn lemma_entry_decreases(d: Document, i: int)
    requires
        0 <= i < d.spec_entries().len(),
    ensures
        decreases_to!(d => d.spec_entries()[i].1),
{
    assert(decreases_to!(d => d.fields@[i].1));
}

pub open spec fn value_model(v: Value) -> Bson
    decreases v,
{
    match v {
        Value::Double(b) => Bson::Double(b),
        Value::String(s) => Bson::String(s@),
        Value::Document(d) => Bson::Document(fields_model(d.spec_entries())),
        Value::Array(d) => Bson::Array(fields_model(d.spec_entries())),
        Value::Binary(t, b) => Bson::Binary(t, b@),
        Value::ObjectId(o) => Bson::ObjectId(o.bytes@),
        Value::Boolean(b) => Bson::Boolean(b),
        Value::DateTime(t) => Bson::DateTime(t),
        Value::Null => Bson::Null,
        Value::I32(i) => Bson::I32(i),
        Value::I64(i) => Bson::I64(i),
    }
}

pub open spec fn fields_model(fs: Seq<(String, Value)>) -> Seq<(Seq<char>, Bson)>
    decreases fs,
{
    if fs.len() == 0 {
        Seq::empty()
    } else {
        seq![(fs[0].0@, value_model(fs[0].1))] + fields_model(fs.drop_first())
    }
}

impl View for Value {
    type V = Bson;

    open spec fn view(&self) -> Bson {
        value_model(*self)
    }
}

impl View for Document {
    type V = Seq<(Seq<char>, Bson)>;

    open spec fn view(&self) -> Seq<(Seq<char>, Bson)> {
        fields_model(self.spec_entries())
    }
}

/// The model of a field sequence has one entry per field, in order.
pub proof fn lemma_fields_model(fs: Seq<(String, Value)>)
    ensures
        fields_model(fs).len() == fs.len(),
        forall|i: int|
            0 <= i < fs.len() ==> #[trigger] fields_model(fs)[i] == (fs[i].0@, value_model(fs[i].1)),
    decreases fs.len(),
{
    if fs.len() > 0 {
        lemma_fields_model(fs.drop_first());
        assert forall|i: int| 0 <= i < fs.len() implies #[trigger] fields_model(fs)[i] == (
            fs[i].0@,
            value_model(fs[i].1),
        ) by {
            if i > 0 {
                assert(fs.drop_first()[i - 1] == fs[i]);
            }
        }
    }
}

/// Two field sequences with equal entries have equal models.
pub proof fn lemma_fields_model_ext(a: Seq<(String, Value)>, b: Seq<(String, Value)>)
    requires
        a.len() == b.len(),
        forall|i: int| 0 <= i < a.len() ==> a[i].0@ == b[i].0@ && value_model(a[i].1) == value_model(b[i].1),
    ensures
        fields_model(a) == fields_model(b),
{
    lemma_fields_model(a);
    lemma_fields_model(b);
    assert(fields_model(a) =~= fields_model(b));
}

/// Every object id in a run of fields, at every depth, has twelve bytes.
pub open spec fn fields_wf(fs: Seq<(Seq<char>, Bson)>) -> bool
    decreases fs, 2int,
{
    forall|i: int| 0 <= i < fs.len() ==> entry_wf(#[trigger] fs[i])
}

pub open spec fn entry_wf(e: (Seq<char>, Bson)) -> bool
    decreases e, 1int,
{
    value_wf(e.1)
}

/// Every object id in a value, at every depth, has twelve bytes.
pub open spec fn value_wf(v: Bson) -> bool
    decreases v, 0int,
{
    match v {
        Bson::ObjectId(b) => b.len() == 12,
        Bson::Document(inner) => fields_wf(inner),
        Bson::Array(inner) => fields_wf(inner),
        _ => true,
    }
}

/// The model of any document is well formed.
pub proof fn lemma_document_wf(d: Document)
    ensures
        fields_wf(d@),
    decreases d, 1int,
{
    lemma_fields_model(d.fields@);
    assert forall|i: int| 0 <= i < d@.len() implies entry_wf(#[trigger] d@[i]) by {
        assert(decreases_to!(d => d.fields@[i].1));
        lemma_value_wf(d.fields@[i].1);
    }
}

/// The model of any value is well formed.
pub proof fn lemma_value_wf(v: Value)
    ensures
        value_wf(v@),
    decreases v, 0int,
{
    match v {
        Value::Document(d) => lemma_document_wf(d),
        Value::Array(d) => lemma_document_wf(d),
        _ => {},
    }
}

/// Why a typed field access failed.
#[derive(Clone, Copy, Debug, PartialEq, Eq, Structural)]
pub enum FieldAccessError {
    NotPresent,
    UnexpectedType,
}

pub type FieldAccessResult<T> = Result<T, FieldAccessError>;

/// The index of the first field from `i` on whose key is `k`, or `fs.len()`.
pub open spec fn key_index(fs: Seq<(Seq<char>, Bson)>, k: Seq<char>, i: int) -> int
    decreases fs.len() - i,
{
    if i < 0 || i >= fs.len() {
        fs.len() as int
    } else if fs[i].0 == k {
        i
    } else {
        key_index(fs, k, i + 1)
    }
}

/// The value of the first field whose key is `k`.
pub open spec fn lookup(fs: Seq<(Seq<char>, Bson)>, k: Seq<char>) -> Option<Bson> {
    let i = key_index(fs, k, 0);
    if i < fs.len() {
        Some(fs[i].1)
    } else {
        None
    }
}

/// `fs` with the value of key `k` set to `v`: in place where `k` already is,
/// appended at the end where it is not.
pub open spec fn put(fs: Seq<(Seq<char>, Bson)>, k: Seq<char>, v: Bson) -> Seq<(Seq<char>, Bson)> {
    let i = key_index(fs, k, 0);
    if i < fs.len() {
        fs.update(i, (k, v))
    } else {
        fs.push((k, v))
    }
}

proof fn lemma_key_index_bounds(fs: Seq<(Seq<char>, Bson)>, k: Seq<char>, i: int)
    requires
        0 <= i <= fs.len(),
    ensures
        i <= key_index(fs, k, i) <= fs.len(),
        key_index(fs, k, i) < fs.len() ==> fs[key_index(fs, k, i)].0 == k,
    decreases fs.len() - i,
{
    if i < fs.len() && fs[i].0 != k {
        lemma_key_index_bounds(fs, k, i + 1);
    }
}

proof fn lemma_key_index_same(a: Seq<(Seq<char>, Bson)>, b: Seq<(Seq<char>, Bson)>, k: Seq<char>, i: int, n: int)
    requires
        0 <= i <= n <= a.len(),
        n <= b.len(),
        forall|j: int| i <= j < n ==> #[trigger] a[j].0 == b[j].0,
        n == a.len() || a[n].0 == k,
        n == b.len() || b[n].0 == k,
    ensures
        key_index(a, k, i) == key_index(b, k, i),
    decreases n - i,
{
    if i < n && a[i].0 != k {
        lemma_key_index_same(a, b, k, i + 1, n);
    }
}

/// After `put`, looking the key up gives the value that was put.
pub proof fn lemma_lookup_put(fs: Seq<(Seq<char>, Bson)>, k: Seq<char>, v: Bson)
    ensures
        lookup(put(fs, k, v), k) == Some(v),
{
    let i = key_index(fs, k, 0);
    lemma_key_index_bounds(fs, k, 0);
    let g = put(fs, k, v);
    if i < fs.len() {
        lemma_key_index_same(fs, g, k, 0, i);
    } else {
        lemma_key_index_same(fs, g, k, 0, fs.len() as int);
    }
}

/// No two fields of the run share a key.
pub open spec fn keys_distinct(fs: Seq<(Seq<char>, Bson)>) -> bool {
    forall|i: int, j: int| 0 <= i < j < fs.len() ==> #[trigger] fs[i].0 != #[trigger] fs[j].0
}

/// Keys are unique within each document, at every depth.
pub open spec fn unique_keys(fs: Seq<(Seq<char>, Bson)>) -> bool
    decreases fs, 2int,
{
    keys_distinct(fs) && forall|i: int| 0 <= i < fs.len() ==> entry_unique(#[trigger] fs[i])
}

pub open spec fn entry_unique(e: (Seq<char>, Bson)) -> bool
    decreases e, 1int,
{
    value_unique(e.1)
}

/// Keys are unique within each document that a value holds.
pub open spec fn value_unique(v: Bson) -> bool
    decreases v, 0int,
{
    match v {
        Bson::Document(inner) => unique_keys(inner),
        Bson::Array(inner) => unique_keys(inner),
        _ => true,
    }
}

proof fn lemma_key_index_absent(fs: Seq<(Seq<char>, Bson)>, k: Seq<char>, i: int)
    requires
        0 <= i <= fs.len(),
        forall|j: int| i <= j < fs.len() ==> fs[j].0 != k,
    ensures
        key_index(fs, k, i) == fs.len(),
    decreases fs.len() - i,
{
    if i < fs.len() {
        lemma_key_index_absent(fs, k, i + 1);
    }
}

/// Putting a key that no field holds appends it.
pub proof fn lemma_put_new_key(fs: Seq<(Seq<char>, Bson)>, k: Seq<char>, v: Bson)
    requires
        forall|j: int| 0 <= j < fs.len() ==> fs[j].0 != k,
    ensures
        put(fs, k, v) == fs.push((k, v)),
{
    lemma_key_index_absent(fs, k, 0);
}

/// Setting a key keeps the keys of a run distinct.
pub proof fn lemma_put_distinct(fs: Seq<(Seq<char>, Bson)>, k: Seq<char>, v: Bson)
    requires
        keys_distinct(fs),
    ensures
        keys_distinct(put(fs, k, v)),
{
    let i = key_index(fs, k, 0);
    lemma_key_index_bounds(fs, k, 0);
    let g = put(fs, k, v);
    if i < fs.len() {
        assert forall|a: int, b: int| 0 <= a < b < g.len() implies #[trigger] g[a].0 != #[trigger] g[b].0 by {
            assert(fs[a].0 != fs[b].0);
        }
    } else {
        assert forall|j: int| 0 <= j < fs.len() implies fs[j].0 != k by {
            if fs[j].0 == k {
                lemma_key_index_first(fs, k, 0, j);
            }
        }
        assert forall|a: int, b: int| 0 <= a < b < g.len() implies #[trigger] g[a].0 != #[trigger] g[b].0 by {
            if b < fs.len() {
                assert(fs[a].0 != fs[b].0);
            }
        }
    }
}

/// Setting a key keeps keys unique, when the value's own keys are.
pub proof fn lemma_put_unique(fs: Seq<(Seq<char>, Bson)>, k: Seq<char>, v: Bson)
    requires
        unique_keys(fs),
        value_unique(v),
    ensures
        unique_keys(put(fs, k, v)),
{
    let i = key_index(fs, k, 0);
    lemma_key_index_bounds(fs, k, 0);
    let g = put(fs, k, v);
    if i < fs.len() {
        assert forall|a: int| 0 <= a < g.len() implies entry_unique(#[trigger] g[a]) by {
            if a != i {
                assert(entry_unique(fs[a]));
            }
        }
        assert forall|a: int, b: int| 0 <= a < b < g.len() implies #[trigger] g[a].0 != #[trigger] g[b].0 by {
            assert(fs[a].0 != fs[b].0);
        }
    } else {
        assert forall|j: int| 0 <= j < fs.len() implies fs[j].0 != k by {
            if fs[j].0 == k {
                lemma_key_index_first(fs, k, 0, j);
            }
        }
        assert forall|a: int| 0 <= a < g.len() implies entry_unique(#[trigger] g[a]) by {
            if a < fs.len() {
                assert(entry_unique(fs[a]));
            }
        }
        assert forall|a: int, b: int| 0 <= a < b < g.len() implies #[trigger] g[a].0 != #[trigger] g[b].0 by {
            if b < fs.len() {
                assert(fs[a].0 != fs[b].0);
            }
        }
    }
}

proof fn lemma_key_index_first(fs: Seq<(Seq<char>, Bson)>, k: Seq<char>, i: int, j: int)
    requires
        0 <= i <= j < fs.len(),
        fs[j].0 == k,
    ensures
        key_index(fs, k, i) <= j,
    decreases j - i,
{
    if i < j && fs[i].0 != k {
        lemma_key_index_first(fs, k, i + 1, j);
    }
}

/// Inserting into a document whose keys are unique keeps them unique.
pub proof fn lemma_insert_keeps_keys_unique(d: Seq<(Seq<char>, Bson)>, k: Seq<char>, v: Bson)
    requires
        unique_keys(d),
        value_unique(v),
    ensures
        unique_keys(put(d, k, v)),
        lookup(put(d, k, v), k) == Some(v),
{
    lemma_put_unique(d, k, v);
    lemma_lookup_put(d, k, v);
}

impl Document {
    /// An empty document.
    pub fn new() -> (r: Document)
        ensures
            r@ == Seq::<(Seq<char>, Bson)>::empty(),
    {
        Document { fields: Vec::new() }
    }

    /// The number of fields.
    pub fn len(&self) -> (r: usize)
        ensures
            r == self@.len(),
    {
        proof {
            lemma_fields_model(self.fields@);
        }
        self.fields.len()
    }

    /// The index of the first field whose key is `key`, or the number of fields.
    fn position(&self, key: &str) -> (r: usize)
        ensures
            r == key_index(self@, key@, 0),
    {
        proof {
            lemma_fields_model(self.fields@);
        }
        let k = key.to_owned();
        let mut i: usize = 0;
        while i < self.fields.len()
            invariant
                0 <= i <= self.fields@.len(),
                self@.len() == self.fields@.len(),
                k@ == key@,
                forall|j: int| 0 <= j < self.fields@.len() ==> #[trigger] self@[j] == (self.fields@[j].0@, value_model(self.fields@[j].1)),
                key_index(self@, key@, 0) == key_index(self@, key@, i as int),
            decreases self.fields@.len() - i,
        {
            if self.fields[i].0 == k {
                return i;
            }
            i = i + 1;
        }
        i
    }

    /// A copy of the value of the first field whose key is `key`.
    pub fn get(&self, key: &str) -> (r: Option<Value>)
        ensures
            match r {
                Some(v) => lookup(self@, key@) == Some(v@),
                None => lookup(self@, key@) is None,
            },
    {
        proof {
            lemma_fields_model(self.fields@);
        }
        let i = self.position(key);
        if i < self.fields.len() {
            Some(self.fields[i].1.deep_copy())
        } else {
            None
        }
    }

    /// Sets the value of `key`: in place where the key is already present,
    /// as a new last field where it is not.
    pub fn insert(&mut self, key: &str, value: Value)
        ensures
            final(self)@ == put(old(self)@, key@, value@),
    {
        proof {
            use_type_invariant(&*self);
            lemma_fields_model(self.fields@);
        }
        let i = self.position(key);
        let ghost before = self.fields@;
        let mut fields: Vec<(String, Value)> = Vec::new();
        std::mem::swap(&mut fields, &mut self.fields);
        if i < fields.len() {
            fields[i] = (key.to_owned(), value);
            proof {
                lemma_fields_model(fields@);
                assert(fields@ == before.update(i as int, fields@[i as int]));
                assert(fields_model(fields@) =~= fields_model(before).update(i as int, (key@, value@)));
            }
        } else {
            fields.push((key.to_owned(), value));
            proof {
                lemma_fields_model(fields@);
                assert(fields_model(fields@) =~= fields_model(before).push((key@, value@)));
            }
        }
        proof {
            lemma_put_distinct(fields_model(before), key@, value@);
        }
        self.fields = fields;
    }

    /// The embedded document under `key`.
    pub fn as_document(&self, key: &str) -> (r: FieldAccessResult<Document>)
        ensures
            match lookup(self@, key@) {
                Some(Bson::Document(d)) => r matches Ok(x) && x@ == d,
                Some(_) => r == Err::<Document, FieldAccessError>(FieldAccessError::UnexpectedType),
                None => r == Err::<Document, FieldAccessError>(FieldAccessError::NotPresent),
            },
    {
        match self.get(key) {
            Some(Value::Document(d)) => Ok(d),
            Some(_) => Err(FieldAccessError::UnexpectedType),
            None => Err(FieldAccessError::NotPresent),
        }
    }

    /// The 32-bit integer under `key`.
    pub fn as_i32(&self, key: &str) -> (r: FieldAccessResult<i32>)
        ensures
            r == match lookup(self@, key@) {
                Some(Bson::I32(x)) => Ok(x),
                Some(_) => Err(FieldAccessError::UnexpectedType),
                None => Err(FieldAccessError::NotPresent),
            },
    {
        match self.get(key) {
            Some(Value::I32(x)) => Ok(x),
            Some(_) => Err(FieldAccessError::UnexpectedType),
            None => Err(FieldAccessError::NotPresent),
        }
    }

    /// The 64-bit integer under `key`.
    pub fn as_i64(&self, key: &str) -> (r: FieldAccessResult<i64>)
        ensures
            r == match lookup(self@, key@) {
                Some(Bson::I64(x)) => Ok(x),
                Some(_) => Err(FieldAccessError::UnexpectedType),
                None => Err(FieldAccessError::NotPresent),
            },
    {
        match self.get(key) {
            Some(Value::I64(x)) => Ok(x),
            Some(_) => Err(FieldAccessError::UnexpectedType),
            None => Err(FieldAccessError::NotPresent),
        }
    }

    /// The object id under `key`.
    pub fn as_object_id(&self, key: &str) -> (r: FieldAccessResult<ObjectId>)
        ensures
            match lookup(self@, key@) {
                Some(Bson::ObjectId(b)) => r matches Ok(x) && x.bytes@ == b,
                Some(_) => r == Err::<ObjectId, FieldAccessError>(FieldAccessError::UnexpectedType),
                None => r == Err::<ObjectId, FieldAccessError>(FieldAccessError::NotPresent),
            },
    {
        match self.get(key) {
            Some(Value::ObjectId(x)) => Ok(x),
            Some(_) => Err(FieldAccessError::UnexpectedType),
            None => Err(FieldAccessError::NotPresent),
        }
    }

    /// The string under `key`.
    pub fn as_string(&self, key: &str) -> (r: FieldAccessResult<String>)
        ensures
            match lookup(self@, key@) {
                Some(Bson::String(s)) => r matches Ok(x) && x@ == s,
                Some(_) => r == Err::<String, FieldAccessError>(FieldAccessError::UnexpectedType),
                None => r == Err::<String, FieldAccessError>(FieldAccessError::NotPresent),
            },
    {
        match self.get(key) {
            Some(Value::String(x)) => Ok(x),
            Some(_) => Err(FieldAccessError::UnexpectedType),
            None => Err(FieldAccessError::NotPresent),
        }
    }
}

impl Value {
    /// A copy of this value, field by field.
    pub fn deep_copy(&self) -> (r: Value)
        ensures
            r@ == self@,
        decreases self,
    {
        match self {
            Value::Double(b) => Value::Double(*b),
            Value::String(s) => Value::String(s.clone()),
            Value::Document(d) => Value::Document(d.deep_copy()),
            Value::Array(d) => Value::Array(d.deep_copy()),
            Value::Binary(t, b) => Value::Binary(*t, b.clone()),
            Value::ObjectId(o) => Value::ObjectId(*o),
            Value::Boolean(b) => Value::Boolean(*b),
            Value::DateTime(t) => Value::DateTime(*t),
            Value::Null => Value::Null,
            Value::I32(i) => Value::I32(*i),
            Value::I64(i) => Value::I64(*i),
        }
    }
}

impl Document {
    /// A copy of this document, field by field.
    pub fn deep_copy(&self) -> (r: Document)
        ensures
            r@ == self@,
        decreases self,
    {
        let mut fields: Vec<(String, Value)> = Vec::new();
        let mut i: usize = 0;
        while i < self.fields.len()
            invariant
                0 <= i <= self.fields@.len(),
                fields@.len() == i,
                forall|j: int|
                    0 <= j < i ==> (#[trigger] fields@[j]).0@ == self.fields@[j].0@ && value_model(
                        fields@[j].1,
                    ) == value_model(self.fields@[j].1),
            decreases self.fields@.len() - i,
        {
            let k = self.fields[i].0.clone();
            assert(decreases_to!(self => self.fields@[i as int].1));
            let v = self.fields[i].1.deep_copy();
            fields.push((k, v));
            i = i + 1;
        }
        proof {
            use_type_invariant(self);
            lemma_fields_model_ext(fields@, self.fields@);
        }
        Document { fields }
    }
}

impl Clone for Value {
    fn clone(&self) -> Self {
        self.deep_copy()
    }
}

impl Clone for Document {
    fn clone(&self) -> Self {
        self.deep_copy()
    }
}

} // verus!
