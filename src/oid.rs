//! Object ids: fresh ones, and their 24-digit hexadecimal form.
use vstd::prelude::*;
use crate::document::ObjectId;

verus! {

pub open spec fn is_hex_digit(c: char) -> bool {
    ('0' <= c && c <= '9') || ('a' <= c && c <= 'f') || ('A' <= c && c <= 'F')
}

/// The value of one hexadecimal digit.
pub open spec fn hex_value(c: char) -> int {
    if '0' <= c && c <= '9' {
        c as int - '0' as int
    } else if 'a' <= c && c <= 'f' {
        c as int - 'a' as int + 10
    } else {
        c as int - 'A' as int + 10
    }
}

/// Exactly 24 hexadecimal digits, either case.
pub open spec fn is_object_id_hex(s: Seq<char>) -> bool {
    s.len() == 24 && forall|i: int| 0 <= i < 24 ==> is_hex_digit(#[trigger] s[i])
}

/// The twelve bytes that 24 hexadecimal digits spell, high digit first.
pub open spec fn object_id_from_hex(s: Seq<char>) -> Seq<u8> {
    Seq::new(12, |i: int| (16 * hex_value(s[2 * i]) + hex_value(s[2 * i + 1])) as u8)
}

/// The lowercase digit for a value below 16.
pub open spec fn hex_digit(n: int) -> char {
    if n < 10 {
        ('0' as int + n) as char
    } else {
        ('a' as int + n - 10) as char
    }
}

/// Two lowercase hexadecimal digits per byte, high digit first.
pub open spec fn hex_of(b: Seq<u8>) -> Seq<char> {
    Seq::new(
        2 * b.len(),
        |i: int|
            if i % 2 == 0 {
                hex_digit(b[i / 2] as int / 16)
            } else {
                hex_digit(b[i / 2] as int % 16)
            },
    )
}

/// Relies on bson's `ObjectId::new`: twelve bytes from the clock, the process
/// and a counter. Nothing is promised of their values.
#[verifier::external_body]
fn fresh_object_id_bytes() -> (r: [u8; 12]) {
    bson::oid::ObjectId::new().bytes()
}

/// Relies on bson's `ObjectId::parse_str`, which runs `hex::decode` on the
/// string's bytes and wants twelve bytes out: any other byte than an ASCII
/// hexadecimal digit, or another length, is an error.
#[verifier::external_body]
fn parse_object_id_hex(s: &str) -> (r: Option<[u8; 12]>)
    ensures
        r is Some <==> is_object_id_hex(s@),
        r matches Some(b) ==> b@ == object_id_from_hex(s@),
{
    match bson::oid::ObjectId::parse_str(s) {
        Ok(id) => Some(id.bytes()),
        Err(_) => None,
    }
}

/// Relies on bson's `ObjectId::to_hex`, which is `hex::encode`: lowercase
/// digits, two per byte, high digit first.
#[verifier::external_body]
fn object_id_to_hex(b: [u8; 12]) -> (r: String)
    ensures
        r@ == hex_of(b@),
{
    bson::oid::ObjectId::from_bytes(b).to_hex()
}

impl ObjectId {
    /// A fresh id from the clock, the process and a counter.
    pub fn new() -> (r: ObjectId) {
        ObjectId { bytes: fresh_object_id_bytes() }
    }

    /// The id that 24 hexadecimal digits spell.
    pub fn from_str(id: &str) -> (r: ObjectId)
        requires
            is_object_id_hex(id@),
        ensures
            r.bytes@ == object_id_from_hex(id@),
    {
        ObjectId { bytes: parse_object_id_hex(id).unwrap() }
    }

    /// The id that `id` spells, if it is 24 hexadecimal digits.
    pub fn parse(id: &str) -> (r: Option<ObjectId>)
        ensures
            r is Some <==> is_object_id_hex(id@),
            r matches Some(o) ==> o.bytes@ == object_id_from_hex(id@),
    {
        match parse_object_id_hex(id) {
            Some(b) => Some(ObjectId { bytes: b }),
            None => None,
        }
    }

    /// The 24 lowercase hexadecimal digits of this id.
    pub fn to_string(&self) -> (r: String)
        ensures
            r@ == hex_of(self.bytes@),
    {
        object_id_to_hex(self.bytes)
    }
}

} // verus!
