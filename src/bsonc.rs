//! The binary document buffer: encoded bytes, owned or borrowed.
use vstd::prelude::*;
use crate::bytes::{get_le32, read_le32};
use crate::codec::{
    decode_utf8_lossy, document_result, encodable, encode, encode_document, lemma_length_prefix, parse_document,
};
use crate::document::{Bson, Document};
use crate::error::{DecodingError, EncodingError};

verus! {

/// A buffer that starts with its own length and ends with a zero byte.
pub open spec fn well_framed(b: Seq<u8>) -> bool {
    b.len() >= 5 && read_le32(b, 0) as int == b.len() && b[b.len() - 1] == 0
}

enum Storage<'a> {
    Owned(Vec<u8>),
    Borrowed(&'a [u8]),
}

/// One encoded document. Bytes that it owns are freed with it; bytes that it
/// borrows stay with their owner and cannot outlive the borrow.
pub struct Bsonc<'a> {
    data: Storage<'a>,
}

impl<'a> View for Bsonc<'a> {
    type V = Seq<u8>;

    closed spec fn view(&self) -> Seq<u8> {
        match self.data {
            Storage::Owned(v) => v@,
            Storage::Borrowed(s) => s@,
        }
    }
}

impl<'a> Bsonc<'a> {
    /// Whether the buffer owns its bytes.
    pub closed spec fn owns(&self) -> bool {
        self.data is Owned
    }

    /// A buffer that holds the empty document.
    pub fn new() -> (r: Bsonc<'static>)
        ensures
            r@ == encode_document(Seq::<(Seq<char>, Bson)>::empty()),
            well_framed(r@),
            r.owns(),
    {
        let b: Vec<u8> = vec![5u8, 0u8, 0u8, 0u8, 0u8];
        proof {
            let e = Seq::<(Seq<char>, Bson)>::empty();
            assert(crate::codec::encode_fields(e) =~= Seq::<u8>::empty());
            assert(5u32 as u8 == 5u8) by (bit_vector);
            assert((5u32 >> 8) as u8 == 0u8) by (bit_vector);
            assert((5u32 >> 16) as u8 == 0u8) by (bit_vector);
            assert((5u32 >> 24) as u8 == 0u8) by (bit_vector);
            assert(b@ =~= encode_document(Seq::<(Seq<char>, Bson)>::empty()));
            assert(b@.subrange(0, 4) =~= crate::bytes::le32(5u32));
            crate::bytes::lemma_read_le32(b@, 0, 5u32);
        }
        Bsonc { data: Storage::Owned(b) }
    }

    /// Borrows `data` without copying it, if it is framed as one document.
    pub fn from_ptr(data: &'a [u8]) -> (r: Result<Bsonc<'a>, DecodingError>)
        ensures
            r is Ok <==> well_framed(data@),
            r matches Ok(b) ==> b@ == data@ && !b.owns(),
            r matches Err(e) ==> e == DecodingError::Malformed,
    {
        let n = data.len();
        if n < 5 || get_le32(data, 0) as usize != n || data[n - 1] != 0 {
            return Err(DecodingError::Malformed);
        }
        Ok(Bsonc { data: Storage::Borrowed(data) })
    }

    /// Encodes `document` into a buffer of its own.
    pub fn from_document(document: &Document) -> (r: Result<Bsonc<'static>, EncodingError>)
        ensures
            r is Ok <==> encodable(document@),
            r matches Ok(b) ==> b@ == encode_document(document@) && b.owns() && well_framed(b@),
            r matches Ok(b) ==> parse_document(b@, true) == Ok::<Seq<(Seq<char>, Bson)>, DecodingError>(
                document@,
            ),
            r matches Err(e) ==> e == if crate::codec::keys_valid(document@) {
                EncodingError::TooLarge
            } else {
                EncodingError::KeyContainsNul
            },
    {
        match encode(document) {
            Ok(b) => {
                proof {
                    lemma_length_prefix(*document);
                }
                Ok(Bsonc { data: Storage::Owned(b) })
            },
            Err(e) => Err(e),
        }
    }

    /// Decodes the buffer; invalid UTF-8 becomes replacement characters.
    pub fn as_document(&self) -> (r: Result<Document, DecodingError>)
        ensures
            document_result(r) == parse_document(self@, true),
    {
        decode_utf8_lossy(self.inner())
    }

    /// The encoded bytes.
    pub fn inner(&self) -> (r: &[u8])
        ensures
            r@ == self@,
    {
        match &self.data {
            Storage::Owned(v) => v.as_slice(),
            Storage::Borrowed(s) => s,
        }
    }

    /// Whether the buffer owns its bytes.
    pub fn is_owned(&self) -> (r: bool)
        ensures
            r == self.owns(),
    {
        match &self.data {
            Storage::Owned(_) => true,
            Storage::Borrowed(_) => false,
        }
    }
}

} // verus!
