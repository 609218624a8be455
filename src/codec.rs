//! The BSON wire format: what a document encodes to, and how bytes parse.
use vstd::prelude::*;
use vstd::utf8::*;
use crate::bytes::{
    copy_range, get_le32, get_le64, le32, le64, lemma_read_le32, lemma_read_le64, push_all, push_le32,
    push_le64, read_le32, read_le64,
};
use crate::document::{
    entry_unique, entry_wf, fields_model, fields_wf, keys_distinct, lemma_document_wf, lemma_fields_model,
    lemma_entry_decreases, lemma_put_new_key, lemma_put_unique, put, unique_keys, value_model, value_unique, value_wf, Bson, Document,
    ObjectId, Value,
};
use crate::error::{DecodingError, EncodingError};

verus! {

broadcast use vstd::std_specs::vec::group_vec_axioms, vstd::seq::group_seq_axioms;

/// The largest length a document may have: a signed 32-bit length prefix.
pub const MAX_DOCUMENT_LEN: usize = 0x7fff_ffff;

pub const TAG_DOUBLE: u8 = 0x01;
pub const TAG_STRING: u8 = 0x02;
pub const TAG_DOCUMENT: u8 = 0x03;
pub const TAG_ARRAY: u8 = 0x04;
pub const TAG_BINARY: u8 = 0x05;
pub const TAG_OBJECT_ID: u8 = 0x07;
pub const TAG_BOOLEAN: u8 = 0x08;
pub const TAG_DATE_TIME: u8 = 0x09;
pub const TAG_NULL: u8 = 0x0a;
pub const TAG_I32: u8 = 0x10;
pub const TAG_I64: u8 = 0x12;

/// What `String::from_utf8_lossy` makes of a byte sequence.
pub uninterp spec fn lossy_utf8(b: Seq<u8>) -> Seq<char>;

/// The type tag that introduces a value.
pub open spec fn tag_of(v: Bson) -> u8 {
    match v {
        Bson::Double(_) => TAG_DOUBLE,
        Bson::String(_) => TAG_STRING,
        Bson::Document(_) => TAG_DOCUMENT,
        Bson::Array(_) => TAG_ARRAY,
        Bson::Binary(_, _) => TAG_BINARY,
        Bson::ObjectId(_) => TAG_OBJECT_ID,
        Bson::Boolean(_) => TAG_BOOLEAN,
        Bson::DateTime(_) => TAG_DATE_TIME,
        Bson::Null => TAG_NULL,
        Bson::I32(_) => TAG_I32,
        Bson::I64(_) => TAG_I64,
    }
}

/// A key can be written as a C string: its UTF-8 bytes hold no zero.
pub open spec fn key_ok(k: Seq<char>) -> bool {
    !encode_utf8(k).contains(0u8)
}

/// Every key, at every depth, can be written as a C string.
pub open spec fn keys_valid(fs: Seq<(Seq<char>, Bson)>) -> bool
    decreases fs, 2int,
{
    forall|i: int| 0 <= i < fs.len() ==> entry_keys_valid(#[trigger] fs[i])
}

/// The key of an entry, and those of the documents in its value, are C strings.
pub open spec fn entry_keys_valid(e: (Seq<char>, Bson)) -> bool
    decreases e, 1int,
{
    key_ok(e.0) && value_keys_valid(e.1)
}

/// The keys of the documents in a value are C strings.
pub open spec fn value_keys_valid(v: Bson) -> bool
    decreases v, 0int,
{
    match v {
        Bson::Document(inner) => keys_valid(inner),
        Bson::Array(inner) => keys_valid(inner),
        _ => true,
    }
}

/// The whole encoding of a document: length prefix, fields, terminator.
pub open spec fn encode_document(fs: Seq<(Seq<char>, Bson)>) -> Seq<u8>
    decreases fs, 2int,
{
    let body = encode_fields(fs);
    le32((body.len() + 5) as u32) + body + seq![0u8]
}

/// The fields of a document, front to back.
pub open spec fn encode_fields(fs: Seq<(Seq<char>, Bson)>) -> Seq<u8>
    decreases fs, 1int,
{
    if fs.len() == 0 {
        Seq::empty()
    } else {
        encode_field(fs[0].0, fs[0].1) + encode_fields(fs.drop_first())
    }
}

/// One field: type tag, key as a C string, payload.
pub open spec fn encode_field(k: Seq<char>, v: Bson) -> Seq<u8>
    decreases v, 1int,
{
    seq![tag_of(v)] + encode_utf8(k) + seq![0u8] + encode_payload(v)
}

/// The payload of a value, as its type tag prescribes.
pub open spec fn encode_payload(v: Bson) -> Seq<u8>
    decreases v, 0int,
{
    match v {
        Bson::Double(bits) => le64(bits),
        Bson::String(s) => le32((encode_utf8(s).len() + 1) as u32) + encode_utf8(s) + seq![0u8],
        Bson::Document(fs) => encode_document(fs),
        Bson::Array(fs) => encode_document(fs),
        Bson::Binary(subtype, b) => le32(b.len() as u32) + seq![subtype] + b,
        Bson::ObjectId(b) => b,
        Bson::Boolean(x) => seq![if x { 1u8 } else { 0u8 }],
        Bson::DateTime(ms) => le64(ms as u64),
        Bson::Null => Seq::empty(),
        Bson::I32(x) => le32(x as u32),
        Bson::I64(x) => le64(x as u64),
    }
}

/// The characters of a key or string. Valid UTF-8 decodes to what it encodes;
/// other bytes are an error, or in lossy mode what `String::from_utf8_lossy` makes of them.
pub open spec fn text(b: Seq<u8>, lossy: bool) -> Option<Seq<char>> {
    if valid_utf8(b) {
        Some(decode_utf8(b))
    } else if lossy {
        Some(lossy_utf8(b))
    } else {
        None
    }
}

/// The index of the first zero byte at or after `i`, or `b.len()`.
pub open spec fn find_nul(b: Seq<u8>, i: int) -> int
    decreases b.len() - i,
{
    if i < 0 || i >= b.len() || b[i] == 0 {
        i
    } else {
        find_nul(b, i + 1)
    }
}

/// Parses `b` as exactly one document.
pub open spec fn parse_document(b: Seq<u8>, lossy: bool) -> Result<Seq<(Seq<char>, Bson)>, DecodingError>
    decreases b.len(), 2int,
{
    if b.len() < 5 || read_le32(b, 0) as int != b.len() || b[b.len() - 1] != 0 {
        Err(DecodingError::Malformed)
    } else {
        parse_fields(b.subrange(4, b.len() - 1), lossy, Seq::empty())
    }
}

/// Parses `b` as a run of fields that fills it exactly, setting each into
/// `acc` in turn: a key seen before keeps its place and takes the later value.
pub open spec fn parse_fields(b: Seq<u8>, lossy: bool, acc: Seq<(Seq<char>, Bson)>) -> Result<Seq<(Seq<char>, Bson)>, DecodingError>
    decreases b.len(), 1int,
{
    if b.len() == 0 {
        Ok(acc)
    } else {
        match parse_field(b, lossy) {
            Err(e) => Err(e),
            Ok((k, v, n)) => if 0 < n <= b.len() {
                parse_fields(b.subrange(n, b.len() as int), lossy, put(acc, k, v))
            } else {
                Err(DecodingError::Malformed)
            },
        }
    }
}

/// Parses the field at the front of `b`: its key, its value and its length.
pub open spec fn parse_field(b: Seq<u8>, lossy: bool) -> Result<(Seq<char>, Bson, int), DecodingError>
    decreases b.len(), 0int,
{
    let z = find_nul(b, 1);
    if b.len() == 0 || !(1 <= z < b.len()) {
        Err(DecodingError::Malformed)
    } else {
        match text(b.subrange(1, z), lossy) {
            None => Err(DecodingError::InvalidUtf8),
            Some(k) => match parse_value(b[0], b.subrange(z + 1, b.len() as int), lossy) {
                Err(e) => Err(e),
                Ok((v, n)) => Ok((k, v, z + 1 + n)),
            },
        }
    }
}

/// Parses the payload of type `tag` at the front of `b`: the value and its length.
pub open spec fn parse_value(tag: u8, b: Seq<u8>, lossy: bool) -> Result<(Bson, int), DecodingError>
    decreases b.len(), 3int,
{
    let n = b.len();
    if tag == TAG_DOUBLE {
        if 8 <= n { Ok((Bson::Double(read_le64(b, 0)), 8)) } else { Err(DecodingError::Malformed) }
    } else if tag == TAG_STRING {
        if 4 <= n {
            let l = read_le32(b, 0) as int;
            if 1 <= l <= MAX_DOCUMENT_LEN && 4 + l <= n && b[4 + l - 1] == 0 {
                match text(b.subrange(4, 4 + l - 1), lossy) {
                    None => Err(DecodingError::InvalidUtf8),
                    Some(s) => Ok((Bson::String(s), 4 + l)),
                }
            } else { Err(DecodingError::Malformed) }
        } else { Err(DecodingError::Malformed) }
    } else if tag == TAG_DOCUMENT || tag == TAG_ARRAY {
        if 4 <= n {
            let l = read_le32(b, 0) as int;
            if 5 <= l <= MAX_DOCUMENT_LEN && l <= n {
                match parse_document(b.subrange(0, l), lossy) {
                    Err(e) => Err(e),
                    Ok(inner) => if tag == TAG_DOCUMENT {
                        Ok((Bson::Document(inner), l))
                    } else {
                        Ok((Bson::Array(inner), l))
                    },
                }
            } else { Err(DecodingError::Malformed) }
        } else { Err(DecodingError::Malformed) }
    } else if tag == TAG_BINARY {
        if 5 <= n {
            let l = read_le32(b, 0) as int;
            if l <= MAX_DOCUMENT_LEN && 5 + l <= n {
                Ok((Bson::Binary(b[4], b.subrange(5, 5 + l)), 5 + l))
            } else { Err(DecodingError::Malformed) }
        } else { Err(DecodingError::Malformed) }
    } else if tag == TAG_OBJECT_ID {
        if 12 <= n { Ok((Bson::ObjectId(b.subrange(0, 12)), 12)) } else { Err(DecodingError::Malformed) }
    } else if tag == TAG_BOOLEAN {
        if 1 <= n && (b[0] == 0 || b[0] == 1) { Ok((Bson::Boolean(b[0] == 1), 1)) }
        else { Err(DecodingError::Malformed) }
    } else if tag == TAG_DATE_TIME {
        if 8 <= n { Ok((Bson::DateTime(read_le64(b, 0) as i64), 8)) } else { Err(DecodingError::Malformed) }
    } else if tag == TAG_NULL {
        Ok((Bson::Null, 0))
    } else if tag == TAG_I32 {
        if 4 <= n { Ok((Bson::I32(read_le32(b, 0) as i32), 4)) } else { Err(DecodingError::Malformed) }
    } else if tag == TAG_I64 {
        if 8 <= n { Ok((Bson::I64(read_le64(b, 0) as i64), 8)) } else { Err(DecodingError::Malformed) }
    } else {
        Err(DecodingError::UnsupportedType(tag))
    }
}

/// Relies on `String::from_utf8`: it succeeds exactly on valid UTF-8, and then
/// holds the characters that the bytes encode.
#[verifier::external_body]
fn string_from_utf8(v: Vec<u8>) -> (r: Option<String>)
    ensures
        r is Some <==> valid_utf8(v@),
        r matches Some(s) ==> s@ == decode_utf8(v@),
{
    String::from_utf8(v).ok()
}

/// Relies on `String::from_utf8_lossy`: valid UTF-8 comes back as the characters
/// it encodes; on other bytes the result depends on the bytes alone.
#[verifier::external_body]
fn string_from_utf8_lossy(v: &[u8]) -> (r: String)
    ensures
        r@ == if valid_utf8(v@) { decode_utf8(v@) } else { lossy_utf8(v@) },
{
    String::from_utf8_lossy(v).into_owned()
}

pub open spec fn text_of(r: Option<String>) -> Option<Seq<char>> {
    match r {
        Some(s) => Some(s@),
        None => None,
    }
}

pub open spec fn document_result(r: Result<Document, DecodingError>) -> Result<Seq<(Seq<char>, Bson)>, DecodingError> {
    match r {
        Ok(d) => Ok(d@),
        Err(e) => Err(e),
    }
}

pub open spec fn field_result(r: Result<(String, Value, usize), DecodingError>, pos: int) -> Result<(Seq<char>, Bson, int), DecodingError> {
    match r {
        Ok((k, v, next)) => Ok((k@, v@, next - pos)),
        Err(e) => Err(e),
    }
}

/// The characters of `b[i..j]`, strictly or lossily decoded.
fn read_text(b: &[u8], i: usize, j: usize, lossy: bool) -> (r: Option<String>)
    requires
        i <= j <= b@.len(),
    ensures
        text_of(r) == text(b@.subrange(i as int, j as int), lossy),
{
    let v = copy_range(b, i, j);
    if lossy {
        Some(string_from_utf8_lossy(v.as_slice()))
    } else {
        string_from_utf8(v)
    }
}

/// The index of the first zero byte in `b[i..end]`, or `end`.
fn scan_nul(b: &[u8], start: usize, i: usize, end: usize) -> (r: usize)
    requires
        start < i <= end <= b@.len(),
    ensures
        start < r <= end,
        r - start == find_nul(b@.subrange(start as int, end as int), i - start),
{
    let ghost sub = b@.subrange(start as int, end as int);
    let mut k: usize = i;
    while k < end && b[k] != 0
        invariant
            start < i <= k <= end <= b@.len(),
            sub == b@.subrange(start as int, end as int),
            find_nul(sub, i - start) == find_nul(sub, k - start),
        decreases end - k,
    {
        k = k + 1;
    }
    k
}

/// Decodes the document that fills `b[start..end]`.
pub fn decode_document(b: &[u8], start: usize, end: usize, lossy: bool) -> (r: Result<Document, DecodingError>)
    requires
        start <= end <= b@.len(),
    ensures
        document_result(r) == parse_document(b@.subrange(start as int, end as int), lossy),
    decreases end - start, 2int,
{
    let ghost whole = b@.subrange(start as int, end as int);
    if end - start < 5 || get_le32(b, start) as usize != end - start || b[end - 1] != 0 {
        return Err(DecodingError::Malformed);
    }
    assert(read_le32(whole, 0) == read_le32(b@, start as int));
    assert(whole[whole.len() - 1] == b@[end - 1]);
    let body_end = end - 1;
    let ghost body = whole.subrange(4, whole.len() - 1);
    assert(body =~= b@.subrange(start + 4, body_end as int));
    assert(parse_document(whole, lossy) == parse_fields(body, lossy, Seq::empty()));
    let mut doc = Document::new();
    let mut pos: usize = start + 4;
    while pos < body_end
        invariant
            start + 4 <= pos <= body_end,
            body_end + 1 == end <= b@.len(),
            body == b@.subrange(start + 4, body_end as int),
            whole == b@.subrange(start as int, end as int),
            parse_document(whole, lossy) == parse_fields(body, lossy, Seq::empty()),
            parse_fields(body, lossy, Seq::empty()) == parse_fields(b@.subrange(pos as int, body_end as int), lossy, doc@),
        decreases body_end - pos,
    {
        let ghost tail = b@.subrange(pos as int, body_end as int);
        match decode_field(b, pos, body_end, lossy) {
            Err(e) => {
                return Err(e);
            },
            Ok((k, v, next)) => {
                assert(tail.subrange(next - pos, tail.len() as int) =~= b@.subrange(next as int, body_end as int));
                doc.insert(k.as_str(), v);
                pos = next;
            },
        }
    }
    assert(b@.subrange(pos as int, body_end as int) =~= Seq::<u8>::empty());
    Ok(doc)
}

pub open spec fn value_result(r: Result<(Value, usize), DecodingError>, p: int) -> Result<(Bson, int), DecodingError> {
    match r {
        Ok((v, next)) => Ok((v@, next - p)),
        Err(e) => Err(e),
    }
}

/// Decodes the field at the front of `b[pos..end]`, and says where it ends.
#[verifier::rlimit(40)]
fn decode_field(b: &[u8], pos: usize, end: usize, lossy: bool) -> (r: Result<(String, Value, usize), DecodingError>)
    requires
        pos < end <= b@.len(),
    ensures
        field_result(r, pos as int) == parse_field(b@.subrange(pos as int, end as int), lossy),
        r matches Ok((_, _, next)) ==> pos < next <= end,
    decreases end - pos, 1int,
{
    let ghost sub = b@.subrange(pos as int, end as int);
    let z = scan_nul(b, pos, pos + 1, end);
    if z >= end {
        return Err(DecodingError::Malformed);
    }
    assert(sub.subrange(1, z - pos) =~= b@.subrange(pos + 1, z as int));
    let key = match read_text(b, pos + 1, z, lossy) {
        None => {
            return Err(DecodingError::InvalidUtf8);
        },
        Some(k) => k,
    };
    assert(sub.subrange(z + 1 - pos, sub.len() as int) =~= b@.subrange(z + 1, end as int));
    match decode_value(b, b[pos], z + 1, end, lossy) {
        Err(e) => Err(e),
        Ok((v, next)) => Ok((key, v, next)),
    }
}

/// Decodes the payload of type `tag` at the front of `b[p..end]`, and says where it ends.
#[verifier::rlimit(60)]
fn decode_value(b: &[u8], tag: u8, p: usize, end: usize, lossy: bool) -> (r: Result<(Value, usize), DecodingError>)
    requires
        p <= end <= b@.len(),
    ensures
        value_result(r, p as int) == parse_value(tag, b@.subrange(p as int, end as int), lossy),
        r matches Ok((_, next)) ==> p <= next <= end,
    decreases end - p, 3int,
{
    let ghost sub = b@.subrange(p as int, end as int);
    if tag == TAG_DOUBLE {
        if 8 <= end - p {
            let x = get_le64(b, p);
            assert(read_le64(sub, 0) == x);
            Ok((Value::Double(x), p + 8))
        } else {
            Err(DecodingError::Malformed)
        }
    } else if tag == TAG_STRING {
        if 4 <= end - p {
            let l = get_le32(b, p) as usize;
            assert(read_le32(sub, 0) == l);
            if 1 <= l && l <= MAX_DOCUMENT_LEN && l <= end - p - 4 && b[p + 4 + l - 1] == 0 {
                assert(sub.subrange(4, 4 + l - 1) =~= b@.subrange(p + 4, p + 4 + l - 1));
                match read_text(b, p + 4, p + 4 + l - 1, lossy) {
                    None => Err(DecodingError::InvalidUtf8),
                    Some(s) => Ok((Value::String(s), p + 4 + l)),
                }
            } else {
                Err(DecodingError::Malformed)
            }
        } else {
            Err(DecodingError::Malformed)
        }
    } else if tag == TAG_DOCUMENT || tag == TAG_ARRAY {
        if 4 <= end - p {
            let l = get_le32(b, p) as usize;
            assert(read_le32(sub, 0) == l);
            if 5 <= l && l <= MAX_DOCUMENT_LEN && l <= end - p {
                assert(sub.subrange(0, l as int) =~= b@.subrange(p as int, p + l));
                match decode_document(b, p, p + l, lossy) {
                    Err(e) => Err(e),
                    Ok(inner) => if tag == TAG_DOCUMENT {
                        Ok((Value::Document(inner), p + l))
                    } else {
                        Ok((Value::Array(inner), p + l))
                    },
                }
            } else {
                Err(DecodingError::Malformed)
            }
        } else {
            Err(DecodingError::Malformed)
        }
    } else if tag == TAG_BINARY {
        if 5 <= end - p {
            let l = get_le32(b, p) as usize;
            assert(read_le32(sub, 0) == l);
            if l <= MAX_DOCUMENT_LEN && l <= end - p - 5 {
                assert(sub.subrange(5, 5 + l) =~= b@.subrange(p + 5, p + 5 + l));
                let bytes = copy_range(b, p + 5, p + 5 + l);
                Ok((Value::Binary(b[p + 4], bytes), p + 5 + l))
            } else {
                Err(DecodingError::Malformed)
            }
        } else {
            Err(DecodingError::Malformed)
        }
    } else if tag == TAG_OBJECT_ID {
        if 12 <= end - p {
            let id = ObjectId {
                bytes: [
                    b[p], b[p + 1], b[p + 2], b[p + 3], b[p + 4], b[p + 5],
                    b[p + 6], b[p + 7], b[p + 8], b[p + 9], b[p + 10], b[p + 11],
                ],
            };
            assert(sub.subrange(0, 12) =~= id.bytes@);
            Ok((Value::ObjectId(id), p + 12))
        } else {
            Err(DecodingError::Malformed)
        }
    } else if tag == TAG_BOOLEAN {
        if p < end && (b[p] == 0 || b[p] == 1) {
            Ok((Value::Boolean(b[p] == 1), p + 1))
        } else {
            Err(DecodingError::Malformed)
        }
    } else if tag == TAG_DATE_TIME {
        if 8 <= end - p {
            let x = get_le64(b, p);
            assert(read_le64(sub, 0) == x);
            Ok((Value::DateTime(#[verifier::truncate] (x as i64)), p + 8))
        } else {
            Err(DecodingError::Malformed)
        }
    } else if tag == TAG_NULL {
        Ok((Value::Null, p))
    } else if tag == TAG_I32 {
        if 4 <= end - p {
            let x = get_le32(b, p);
            assert(read_le32(sub, 0) == x);
            Ok((Value::I32(#[verifier::truncate] (x as i32)), p + 4))
        } else {
            Err(DecodingError::Malformed)
        }
    } else if tag == TAG_I64 {
        if 8 <= end - p {
            let x = get_le64(b, p);
            assert(read_le64(sub, 0) == x);
            Ok((Value::I64(#[verifier::truncate] (x as i64)), p + 8))
        } else {
            Err(DecodingError::Malformed)
        }
    } else {
        Err(DecodingError::UnsupportedType(tag))
    }
}

/// A document can be encoded: its keys are C strings and it fits a length prefix.
pub open spec fn encodable(fs: Seq<(Seq<char>, Bson)>) -> bool {
    keys_valid(fs) && encode_document(fs).len() <= MAX_DOCUMENT_LEN
}

/// The encoding of consecutive field runs is the concatenation of their encodings.
pub proof fn lemma_encode_fields_append(a: Seq<(Seq<char>, Bson)>, b: Seq<(Seq<char>, Bson)>)
    ensures
        encode_fields(a + b) == encode_fields(a) + encode_fields(b),
    decreases a.len(),
{
    if a.len() == 0 {
        assert(a + b =~= b);
    } else {
        assert((a + b).drop_first() =~= a.drop_first() + b);
        lemma_encode_fields_append(a.drop_first(), b);
    }
}

proof fn lemma_encode_fields_push(a: Seq<(Seq<char>, Bson)>, x: (Seq<char>, Bson))
    ensures
        encode_fields(a.push(x)) == encode_fields(a) + encode_field(x.0, x.1),
{
    lemma_encode_fields_append(a, seq![x]);
    assert(a + seq![x] =~= a.push(x));
    assert(seq![x].drop_first() =~= Seq::<(Seq<char>, Bson)>::empty());
    reveal_with_fuel(encode_fields, 2);
    assert(encode_fields(seq![x]) =~= encode_field(x.0, x.1));
}

/// Each field's encoding is no longer than that of the whole run.
proof fn lemma_encode_field_len(fs: Seq<(Seq<char>, Bson)>, i: int)
    requires
        0 <= i < fs.len(),
    ensures
        encode_field(fs[i].0, fs[i].1).len() <= encode_fields(fs).len(),
{
    lemma_encode_fields_append(fs.subrange(0, i), fs.subrange(i, fs.len() as int));
    assert(fs.subrange(0, i) + fs.subrange(i, fs.len() as int) =~= fs);
    assert(fs.subrange(i, fs.len() as int)[0] == fs[i]);
}

/// Whether the UTF-8 bytes of `k` hold no zero.
fn key_is_valid(k: &String) -> (r: bool)
    ensures
        r == key_ok(k@),
{
    let b = k.as_str().as_bytes();
    let mut i: usize = 0;
    while i < b.len()
        invariant
            0 <= i <= b@.len(),
            b@ == encode_utf8(k@),
            forall|j: int| 0 <= j < i ==> b@[j] != 0,
        decreases b@.len() - i,
    {
        if b[i] == 0 {
            assert(b@[i as int] == 0u8);
            return false;
        }
        i = i + 1;
    }
    true
}

/// Whether every key of `d`, at every depth, can be written as a C string.
/// Where they can, the walk has also seen that keys are unique at every depth.
pub fn keys_are_valid(d: &Document) -> (r: bool)
    ensures
        r == keys_valid(d@),
        r ==> unique_keys(d@),
    decreases d,
{
    // The accessor states that the keys of this level are distinct.
    let _ = d.fields();
    proof {
        lemma_fields_model(d.spec_entries());
    }
    let mut i: usize = 0;
    while i < d.fields().len()
        invariant
            0 <= i <= d.spec_entries().len(),
            fields_model(d.spec_entries()).len() == d.spec_entries().len(),
            forall|j: int|
                0 <= j < d.spec_entries().len() ==> #[trigger] fields_model(d.spec_entries())[j] == (d.spec_entries()[j].0@, value_model(d.spec_entries()[j].1)),
            forall|j: int| 0 <= j < i ==> entry_keys_valid(#[trigger] fields_model(d.spec_entries())[j]),
            forall|j: int| 0 <= j < i ==> entry_unique(#[trigger] fields_model(d.spec_entries())[j]),
            keys_distinct(d@),
        decreases d.spec_entries().len() - i,
    {
        let ghost m = fields_model(d.spec_entries());
        assert(m[i as int] == (d.spec_entries()[i as int].0@, value_model(d.spec_entries()[i as int].1)));
        if !key_is_valid(&d.fields()[i].0) {
            proof {
                if keys_valid(d@) {
                    assert(entry_keys_valid(m[i as int]));
                }
            }
            return false;
        }
        proof {
            lemma_entry_decreases(*d, i as int);
        }
        match &d.fields()[i].1 {
            Value::Document(inner) => {
                if !keys_are_valid(inner) {
                    proof {
                        if keys_valid(d@) {
                            assert(entry_keys_valid(m[i as int]));
                        }
                    }
                    return false;
                }
                assert(m[i as int].1 == Bson::Document(inner@));
            },
            Value::Array(inner) => {
                if !keys_are_valid(inner) {
                    proof {
                        if keys_valid(d@) {
                            assert(entry_keys_valid(m[i as int]));
                        }
                    }
                    return false;
                }
                assert(m[i as int].1 == Bson::Array(inner@));
            },
            _ => {
                assert(!(m[i as int].1 is Document) && !(m[i as int].1 is Array));
            },
        }
        assert(entry_keys_valid(m[i as int]));
        assert(entry_unique(m[i as int]));
        i = i + 1;
    }
    true
}

/// Appends the encoding of `d`, or reports that it is too long.
fn encode_document_into(d: &Document, out: &mut Vec<u8>) -> (r: Result<(), EncodingError>)
    ensures
        r is Ok ==> final(out)@ == old(out)@ + encode_document(d@) && encode_document(d@).len() <= MAX_DOCUMENT_LEN,
        r is Err ==> r == Err::<(), EncodingError>(EncodingError::TooLarge) && encode_document(d@).len() > MAX_DOCUMENT_LEN,
    decreases d, 1int,
{
    let ghost m = fields_model(d.spec_entries());
    proof {
        lemma_fields_model(d.spec_entries());
    }
    let mut body: Vec<u8> = Vec::new();
    let mut i: usize = 0;
    while i < d.fields().len()
        invariant
            0 <= i <= d.spec_entries().len(),
            m == fields_model(d.spec_entries()),
            m.len() == d.spec_entries().len(),
            forall|j: int|
                0 <= j < d.spec_entries().len() ==> #[trigger] m[j] == (d.spec_entries()[j].0@, value_model(d.spec_entries()[j].1)),
            body@ == encode_fields(m.subrange(0, i as int)),
        decreases d.spec_entries().len() - i,
    {
        proof {
            lemma_entry_decreases(*d, i as int);
        }
        let ghost before = body@;
        let res = encode_field_into(&d.fields()[i].0, &d.fields()[i].1, &mut body);
        proof {
            lemma_encode_field_len(m, i as int);
        }
        if res.is_err() {
            return Err(EncodingError::TooLarge);
        }
        proof {
            assert(m.subrange(0, i + 1) =~= m.subrange(0, i as int).push(m[i as int]));
            lemma_encode_fields_push(m.subrange(0, i as int), m[i as int]);
        }
        i = i + 1;
    }
    assert(m.subrange(0, i as int) =~= m);
    if body.len() > MAX_DOCUMENT_LEN - 5 {
        return Err(EncodingError::TooLarge);
    }
    push_le32(out, (body.len() + 5) as u32);
    push_all(out, body.as_slice());
    out.push(0);
    proof {
        assert(final(out)@ =~= old(out)@ + encode_document(d@));
    }
    Ok(())
}

/// Appends the encoding of one field, or reports that it is too long.
fn encode_field_into(k: &String, v: &Value, out: &mut Vec<u8>) -> (r: Result<(), EncodingError>)
    ensures
        r is Ok ==> final(out)@ == old(out)@ + encode_field(k@, v@),
        r is Err ==> encode_field(k@, v@).len() > MAX_DOCUMENT_LEN,
    decreases v, 0int,
{
    let ghost start = old(out)@;
    let ghost head = seq![tag_of(v@)] + encode_utf8(k@) + seq![0u8];
    let tag = match v {
        Value::Double(_) => TAG_DOUBLE,
        Value::String(_) => TAG_STRING,
        Value::Document(_) => TAG_DOCUMENT,
        Value::Array(_) => TAG_ARRAY,
        Value::Binary(_, _) => TAG_BINARY,
        Value::ObjectId(_) => TAG_OBJECT_ID,
        Value::Boolean(_) => TAG_BOOLEAN,
        Value::DateTime(_) => TAG_DATE_TIME,
        Value::Null => TAG_NULL,
        Value::I32(_) => TAG_I32,
        Value::I64(_) => TAG_I64,
    };
    out.push(tag);
    push_all(out, k.as_str().as_bytes());
    out.push(0);
    assert(out@ =~= start + head);
    let ghost mid = out@;
    match v {
        Value::Double(x) => push_le64(out, *x),
        Value::String(s) => {
            let sb = s.as_str().as_bytes();
            if sb.len() >= MAX_DOCUMENT_LEN {
                return Err(EncodingError::TooLarge);
            }
            push_le32(out, (sb.len() + 1) as u32);
            push_all(out, sb);
            out.push(0);
        },
        Value::Document(inner) => {
            if encode_document_into(inner, out).is_err() {
                return Err(EncodingError::TooLarge);
            }
        },
        Value::Array(inner) => {
            if encode_document_into(inner, out).is_err() {
                return Err(EncodingError::TooLarge);
            }
        },
        Value::Binary(subtype, b) => {
            if b.len() > MAX_DOCUMENT_LEN {
                return Err(EncodingError::TooLarge);
            }
            push_le32(out, b.len() as u32);
            out.push(*subtype);
            push_all(out, b.as_slice());
        },
        Value::ObjectId(o) => push_all(out, o.bytes.as_slice()),
        Value::Boolean(x) => out.push(if *x { 1u8 } else { 0u8 }),
        Value::DateTime(ms) => push_le64(out, #[verifier::truncate] (*ms as u64)),
        Value::Null => {},
        Value::I32(x) => push_le32(out, #[verifier::truncate] (*x as u32)),
        Value::I64(x) => push_le64(out, #[verifier::truncate] (*x as u64)),
    }
    assert(out@ =~= mid + encode_payload(v@));
    assert(out@ =~= start + encode_field(k@, v@));
    Ok(())
}

/// Encodes `d` into a fresh buffer. What it gives decodes, strictly or
/// lossily, to `d` again: the same keys in the same order, the same values.
pub fn encode(d: &Document) -> (r: Result<Vec<u8>, EncodingError>)
    ensures
        r is Ok <==> encodable(d@),
        r matches Ok(b) ==> b@ == encode_document(d@),
        r matches Ok(b) ==> parse_document(b@, false) == Ok::<Seq<(Seq<char>, Bson)>, DecodingError>(d@)
            && parse_document(b@, true) == Ok::<Seq<(Seq<char>, Bson)>, DecodingError>(d@),
        r matches Err(e) ==> e == if keys_valid(d@) {
            EncodingError::TooLarge
        } else {
            EncodingError::KeyContainsNul
        },
{
    if !keys_are_valid(d) {
        return Err(EncodingError::KeyContainsNul);
    }
    let mut out: Vec<u8> = Vec::new();
    match encode_document_into(d, &mut out) {
        Ok(()) => {
            assert(out@ =~= encode_document(d@));
            proof {
                lemma_round_trip(*d, false);
                lemma_round_trip(*d, true);
            }
            Ok(out)
        },
        Err(e) => Err(e),
    }
}

/// Decodes `b` as one document; invalid UTF-8 is an error.
pub fn decode(b: &[u8]) -> (r: Result<Document, DecodingError>)
    ensures
        document_result(r) == parse_document(b@, false),
        r matches Ok(d) ==> unique_keys(d@),
{
    proof {
        lemma_parse_document_unique(b@, false);
    }
    assert(b@.subrange(0, b@.len() as int) =~= b@);
    decode_document(b, 0, b.len(), false)
}

/// Decodes `b` as one document; invalid UTF-8 becomes replacement characters.
pub fn decode_utf8_lossy(b: &[u8]) -> (r: Result<Document, DecodingError>)
    ensures
        document_result(r) == parse_document(b@, true),
        r matches Ok(d) ==> unique_keys(d@),
{
    proof {
        lemma_parse_document_unique(b@, true);
    }
    assert(b@.subrange(0, b@.len() as int) =~= b@);
    decode_document(b, 0, b.len(), true)
}

proof fn lemma_small_u32(n: nat)
    requires
        0 <= n <= MAX_DOCUMENT_LEN,
    ensures
        (n as u32) as int == n,
{
}

proof fn lemma_int_casts(a: i32, b: i64)
    ensures
        (a as u32) as i32 == a,
        (b as u64) as i64 == b,
{
    assert((a as u32) as i32 == a) by (bit_vector);
    assert((b as u64) as i64 == b) by (bit_vector);
}

/// Valid UTF-8 of `k` reads back as `k`, strictly or lossily.
proof fn lemma_text(k: Seq<char>, lossy: bool)
    ensures
        text(encode_utf8(k), lossy) == Some(k),
{
    encode_utf8_valid_utf8(k);
    encode_utf8_decode_utf8(k);
}

proof fn lemma_find_nul(b: Seq<u8>, i: int, z: int)
    requires
        0 <= i <= z < b.len(),
        b[z] == 0,
        forall|j: int| i <= j < z ==> b[j] != 0,
    ensures
        find_nul(b, i) == z,
    decreases z - i,
{
    if i < z {
        lemma_find_nul(b, i + 1, z);
    }
}

/// Parsing the encoding of a document gives the document back.
proof fn lemma_document_round_trip(fs: Seq<(Seq<char>, Bson)>, lossy: bool)
    requires
        keys_valid(fs),
        fields_wf(fs),
        unique_keys(fs),
        encode_document(fs).len() <= MAX_DOCUMENT_LEN,
    ensures
        parse_document(encode_document(fs), lossy) == Ok::<Seq<(Seq<char>, Bson)>, DecodingError>(fs),
    decreases fs, 2int,
{
    let body = encode_fields(fs);
    let enc = encode_document(fs);
    lemma_small_u32(body.len() + 5);
    assert(enc.subrange(0, 4) =~= le32((body.len() + 5) as u32));
    lemma_read_le32(enc, 0, (body.len() + 5) as u32);
    assert(enc.subrange(4, enc.len() - 1) =~= body);
    assert(Seq::<(Seq<char>, Bson)>::empty() + fs =~= fs);
    lemma_fields_round_trip(fs, Seq::empty(), lossy);
}

/// Parsing the encoding of a run of fields after `acc` gives `acc` and the fields.
proof fn lemma_fields_round_trip(fs: Seq<(Seq<char>, Bson)>, acc: Seq<(Seq<char>, Bson)>, lossy: bool)
    requires
        keys_valid(fs),
        fields_wf(fs),
        keys_distinct(acc + fs),
        forall|i: int| 0 <= i < fs.len() ==> entry_unique(#[trigger] fs[i]),
        encode_fields(fs).len() <= MAX_DOCUMENT_LEN,
    ensures
        parse_fields(encode_fields(fs), lossy, acc) == Ok::<Seq<(Seq<char>, Bson)>, DecodingError>(acc + fs),
    decreases fs, 1int,
{
    if fs.len() > 0 {
        let rest = fs.drop_first();
        let e = encode_field(fs[0].0, fs[0].1);
        let enc = encode_fields(fs);
        let all = acc + fs;
        assert(entry_keys_valid(fs[0]));
        assert(entry_wf(fs[0]));
        assert(entry_unique(fs[0]));
        assert forall|j: int| 0 <= j < rest.len() implies entry_keys_valid(#[trigger] rest[j]) && entry_wf(rest[j]) && entry_unique(rest[j]) by {
            assert(rest[j] == fs[j + 1]);
            assert(entry_keys_valid(fs[j + 1]));
            assert(entry_wf(fs[j + 1]));
            assert(entry_unique(fs[j + 1]));
        }
        assert forall|j: int| 0 <= j < acc.len() implies acc[j].0 != fs[0].0 by {
            assert(all[j] == acc[j]);
            assert(all[acc.len() as int] == fs[0]);
        }
        lemma_put_new_key(acc, fs[0].0, fs[0].1);
        let acc2 = acc.push((fs[0].0, fs[0].1));
        assert(acc2 + rest =~= all);
        lemma_field_round_trip(fs[0].0, fs[0].1, encode_fields(rest), lossy);
        assert(enc.subrange(e.len() as int, enc.len() as int) =~= encode_fields(rest));
        lemma_fields_round_trip(rest, acc2, lossy);
    } else {
        assert(encode_fields(fs) =~= Seq::<u8>::empty());
        assert(acc + fs =~= acc);
    }
}

/// Parsing the encoding of a field, whatever follows it, gives the field and its length.
proof fn lemma_field_round_trip(k: Seq<char>, v: Bson, rest: Seq<u8>, lossy: bool)
    requires
        key_ok(k),
        value_keys_valid(v),
        value_wf(v),
        value_unique(v),
        encode_field(k, v).len() <= MAX_DOCUMENT_LEN,
    ensures
        parse_field(encode_field(k, v) + rest, lossy) == Ok::<(Seq<char>, Bson, int), DecodingError>(
            (k, v, encode_field(k, v).len() as int),
        ),
    decreases v, 1int,
{
    let ku = encode_utf8(k);
    let pl = encode_payload(v);
    let b = encode_field(k, v) + rest;
    let z = 1 + ku.len() as int;
    assert forall|j: int| 1 <= j < z implies b[j] != 0 by {
        assert(b[j] == ku[j - 1]);
        if b[j] == 0 {
            assert(ku.contains(0u8));
        }
    }
    assert(b[z] == 0);
    lemma_find_nul(b, 1, z);
    assert(b.subrange(1, z) =~= ku);
    lemma_text(k, lossy);
    assert(b.subrange(z + 1, b.len() as int) =~= pl + rest);
    lemma_value_round_trip(v, rest, lossy);
}

/// Parsing the payload of a value, whatever follows it, gives the value and its length.
proof fn lemma_value_round_trip(v: Bson, rest: Seq<u8>, lossy: bool)
    requires
        value_keys_valid(v),
        value_wf(v),
        value_unique(v),
        encode_payload(v).len() <= MAX_DOCUMENT_LEN,
    ensures
        parse_value(tag_of(v), encode_payload(v) + rest, lossy) == Ok::<(Bson, int), DecodingError>(
            (v, encode_payload(v).len() as int),
        ),
    decreases v, 0int,
{
    match v {
        Bson::String(s) => lemma_string_round_trip(s, rest, lossy),
        Bson::Document(fs) => lemma_nested_round_trip(v, fs, rest, lossy),
        Bson::Array(fs) => lemma_nested_round_trip(v, fs, rest, lossy),
        _ => lemma_scalar_round_trip(v, rest, lossy),
    }
}

proof fn lemma_string_round_trip(s: Seq<char>, rest: Seq<u8>, lossy: bool)
    requires
        encode_payload(Bson::String(s)).len() <= MAX_DOCUMENT_LEN,
    ensures
        parse_value(TAG_STRING, encode_payload(Bson::String(s)) + rest, lossy) == Ok::<(Bson, int), DecodingError>(
            (Bson::String(s), encode_payload(Bson::String(s)).len() as int),
        ),
{
    let b = encode_payload(Bson::String(s)) + rest;
    let su = encode_utf8(s);
    lemma_small_u32(su.len() + 1);
    assert(b.subrange(0, 4) =~= le32((su.len() + 1) as u32));
    lemma_read_le32(b, 0, (su.len() + 1) as u32);
    assert(b[4 + su.len() as int] == 0);
    assert(b.subrange(4, 4 + su.len() as int) =~= su);
    lemma_text(s, lossy);
}

proof fn lemma_nested_round_trip(v: Bson, fs: Seq<(Seq<char>, Bson)>, rest: Seq<u8>, lossy: bool)
    requires
        v == Bson::Document(fs) || v == Bson::Array(fs),
        keys_valid(fs),
        fields_wf(fs),
        unique_keys(fs),
        encode_document(fs).len() <= MAX_DOCUMENT_LEN,
    ensures
        parse_value(tag_of(v), encode_document(fs) + rest, lossy) == Ok::<(Bson, int), DecodingError>(
            (v, encode_document(fs).len() as int),
        ),
    decreases fs, 3int,
{
    let d = encode_document(fs);
    let b = d + rest;
    let body = encode_fields(fs);
    lemma_small_u32(body.len() + 5);
    assert(b.subrange(0, 4) =~= le32((body.len() + 5) as u32));
    lemma_read_le32(b, 0, (body.len() + 5) as u32);
    assert(b.subrange(0, d.len() as int) =~= d);
    lemma_document_round_trip(fs, lossy);
}

proof fn lemma_scalar_round_trip(v: Bson, rest: Seq<u8>, lossy: bool)
    requires
        !(v is String) && !(v is Document) && !(v is Array),
        value_wf(v),
        encode_payload(v).len() <= MAX_DOCUMENT_LEN,
    ensures
        parse_value(tag_of(v), encode_payload(v) + rest, lossy) == Ok::<(Bson, int), DecodingError>(
            (v, encode_payload(v).len() as int),
        ),
{
    let pl = encode_payload(v);
    let b = pl + rest;
    match v {
        Bson::Double(bits) => {
            assert(b.subrange(0, 8) =~= le64(bits));
            lemma_read_le64(b, 0, bits);
        },
        Bson::Binary(t, bytes) => {
            lemma_small_u32(bytes.len());
            assert(b.subrange(0, 4) =~= le32(bytes.len() as u32));
            lemma_read_le32(b, 0, bytes.len() as u32);
            assert(b[4] == t);
            assert(b.subrange(5, 5 + bytes.len() as int) =~= bytes);
        },
        Bson::ObjectId(bytes) => {
            assert(b.subrange(0, 12) =~= bytes);
        },
        Bson::Boolean(x) => {
            assert(b[0] == pl[0]);
        },
        Bson::DateTime(ms) => {
            assert(b.subrange(0, 8) =~= le64(ms as u64));
            lemma_read_le64(b, 0, ms as u64);
            lemma_int_casts(0, ms);
        },
        Bson::I32(x) => {
            assert(b.subrange(0, 4) =~= le32(x as u32));
            lemma_read_le32(b, 0, x as u32);
            lemma_int_casts(x, 0);
        },
        Bson::I64(x) => {
            assert(b.subrange(0, 8) =~= le64(x as u64));
            lemma_read_le64(b, 0, x as u64);
            lemma_int_casts(0, x);
        },
        _ => {},
    }
}

/// Decoding what `encode` produced, strictly or lossily, gives the same
/// document back: the same keys in the same order, and the same values.
/// Every `Document` has unique keys at every depth, and `encode` states this
/// law of what it produces with no assumption.
pub proof fn lemma_round_trip(d: Document, lossy: bool)
    requires
        encodable(d@),
        unique_keys(d@),
    ensures
        parse_document(encode_document(d@), lossy) == Ok::<Seq<(Seq<char>, Bson)>, DecodingError>(d@),
{
    lemma_document_wf(d);
    lemma_document_round_trip(d@, lossy);
}

proof fn lemma_parse_document_unique(b: Seq<u8>, lossy: bool)
    ensures
        parse_document(b, lossy) matches Ok(fs) ==> unique_keys(fs),
    decreases b.len(), 2int,
{
    if !(b.len() < 5 || read_le32(b, 0) as int != b.len() || b[b.len() - 1] != 0) {
        lemma_parse_fields_unique(b.subrange(4, b.len() - 1), lossy, Seq::empty());
    }
}

proof fn lemma_parse_fields_unique(b: Seq<u8>, lossy: bool, acc: Seq<(Seq<char>, Bson)>)
    requires
        unique_keys(acc),
    ensures
        parse_fields(b, lossy, acc) matches Ok(fs) ==> unique_keys(fs),
    decreases b.len(), 1int,
{
    if b.len() > 0 {
        lemma_parse_field_unique(b, lossy);
        if let Ok((k, v, n)) = parse_field(b, lossy) {
            if 0 < n <= b.len() {
                lemma_put_unique(acc, k, v);
                lemma_parse_fields_unique(b.subrange(n, b.len() as int), lossy, put(acc, k, v));
            }
        }
    }
}

proof fn lemma_parse_field_unique(b: Seq<u8>, lossy: bool)
    ensures
        parse_field(b, lossy) matches Ok((k, v, n)) ==> value_unique(v),
    decreases b.len(), 0int,
{
    let z = find_nul(b, 1);
    if b.len() > 0 && 1 <= z < b.len() {
        lemma_parse_value_unique(b[0], b.subrange(z + 1, b.len() as int), lossy);
    }
}

proof fn lemma_parse_value_unique(tag: u8, b: Seq<u8>, lossy: bool)
    ensures
        parse_value(tag, b, lossy) matches Ok((v, n)) ==> value_unique(v),
    decreases b.len(), 3int,
{
    if (tag == TAG_DOCUMENT || tag == TAG_ARRAY) && 4 <= b.len() {
        let l = read_le32(b, 0) as int;
        if 5 <= l <= MAX_DOCUMENT_LEN && l <= b.len() {
            lemma_parse_document_unique(b.subrange(0, l), lossy);
        }
    }
}

/// Decoding gives documents whose keys are unique at every depth: a key
/// that a buffer repeats keeps its first place and takes its last value.
pub proof fn lemma_decoded_keys_unique(b: Seq<u8>, lossy: bool)
    ensures
        parse_document(b, lossy) matches Ok(fs) ==> unique_keys(fs),
{
    lemma_parse_document_unique(b, lossy);
}

/// Where the payload of field `i` starts inside the encoding of `fs`.
pub open spec fn payload_offset(fs: Seq<(Seq<char>, Bson)>, i: int) -> int {
    4 + encode_fields(fs.subrange(0, i)).len() as int + 1 + encode_utf8(fs[i].0).len() as int + 1
}

/// An encoding that fits the length limit starts with its own length and
/// ends with a zero byte.
proof fn lemma_frame(fs: Seq<(Seq<char>, Bson)>)
    requires
        encode_document(fs).len() <= MAX_DOCUMENT_LEN,
    ensures
        read_le32(encode_document(fs), 0) as int == encode_document(fs).len(),
        encode_document(fs)[encode_document(fs).len() - 1] == 0,
{
    let enc = encode_document(fs);
    let body = encode_fields(fs);
    lemma_small_u32(body.len() + 5);
    assert(enc.subrange(0, 4) =~= le32((body.len() + 5) as u32));
    lemma_read_le32(enc, 0, (body.len() + 5) as u32);
}

/// Inside an encoding, the payload of an embedded document or array is the
/// encoding of that document, and is framed the same way: its own length
/// first, a zero byte last. Applied again to it, this reaches every depth.
pub proof fn lemma_nested_frame(fs: Seq<(Seq<char>, Bson)>, i: int, inner: Seq<(Seq<char>, Bson)>)
    requires
        encode_document(fs).len() <= MAX_DOCUMENT_LEN,
        0 <= i < fs.len(),
        fs[i].1 == Bson::Document(inner) || fs[i].1 == Bson::Array(inner),
    ensures
        ({
            let enc = encode_document(fs);
            let p = payload_offset(fs, i);
            let n = encode_document(inner).len() as int;
            &&& 0 <= p && p + n <= enc.len()
            &&& enc.subrange(p, p + n) == encode_document(inner)
            &&& read_le32(enc, p) as int == n
            &&& enc[p + n - 1] == 0
        }),
{
    let enc = encode_document(fs);
    let pre = fs.subrange(0, i);
    let post = fs.subrange(i, fs.len() as int);
    lemma_encode_fields_append(pre, post);
    assert(pre + post =~= fs);
    assert(post[0] == fs[i]);
    assert(post.drop_first() =~= fs.subrange(i + 1, fs.len() as int));
    let f = encode_field(fs[i].0, fs[i].1);
    let d = encode_document(inner);
    let p = payload_offset(fs, i);
    let n = d.len() as int;
    assert(encode_fields(post) == f + encode_fields(fs.subrange(i + 1, fs.len() as int)));
    assert(enc.subrange(p, p + n) =~= d);
    lemma_frame(inner);
    assert(enc.subrange(p, p + 4) =~= d.subrange(0, 4));
    assert(read_le32(enc, p) == read_le32(d, 0));
    assert(enc[p + n - 1] == d[n - 1]);
}

/// Every encoded document starts with its own length, little-endian, and
/// ends with a zero byte.
pub proof fn lemma_length_prefix(d: Document)
    requires
        encodable(d@),
    ensures
        read_le32(encode_document(d@), 0) as int == encode_document(d@).len(),
        encode_document(d@)[encode_document(d@).len() - 1] == 0,
{
    lemma_frame(d@);
}

} // verus!
