//! Errors of the codec, of the driver and of parameter checks.
use vstd::prelude::*;

verus! {

/// Why a byte buffer could not be decoded into a document.
#[derive(Clone, Copy, Debug, PartialEq, Eq, Structural)]
pub enum DecodingError {
    /// A key or a string held bytes that are not UTF-8.
    InvalidUtf8,
    /// A field carried a type tag that this codec does not know.
    UnsupportedType(u8),
    /// A length prefix, terminator or payload did not fit the buffer.
    Malformed,
}

/// Why a document could not be encoded.
#[derive(Clone, Copy, Debug, PartialEq, Eq, Structural)]
pub enum EncodingError {
    /// A key holds a NUL character, which a C string cannot carry.
    KeyContainsNul,
    /// The encoding would be longer than a signed 32-bit length can state.
    TooLarge,
}

/// The part of the driver that reported an error.
#[derive(Clone, Copy, Debug, PartialEq, Eq, Structural)]
pub enum MongoErrorDomain {
    Blank,
    Client,
    Stream,
    Protocol,
    Cursor,
    Query,
    Insert,
    Sasl,
    Bson,
    Matcher,
    Namespace,
    Command,
    Collection,
    Gridfs,
    Scram,
    Unknown,
}

/// What went wrong, as the driver numbers it.
#[derive(Clone, Copy, Debug, PartialEq, Eq, Structural)]
pub enum MongoErrorCode {
    Blank,
    StreamInvalidType,
    StreamInvalidState,
    StreamNameResolution,
    StreamSocket,
    StreamConnect,
    StreamNotEstablished,
    ClientNotReady,
    ClientTooBig,
    ClientTooSmall,
    ClientGetnonce,
    ClientAuthenticate,
    ClientNoAcceptablePeer,
    ClientInExhaust,
    ProtocolInvalidReply,
    ProtocolBadWireVersion,
    CursorInvalidCursor,
    QueryFailure,
    BsonInvalid,
    MatcherInvalid,
    NamespaceInvalid,
    NamespaceInvalidFilterType,
    CommandInvalidArg,
    CollectionInsertFailed,
    CollectionUpdateFailed,
    CollectionDeleteFailed,
    CollectionDoesNotExist,
    GridfsInvalidFilename,
    ScramNotDone,
    ScramProtocolError,
    QueryCommandNotFound,
    QueryNotTailable,
    Unknown,
}

/// The domain that the driver's number `d` stands for.
pub open spec fn domain_of(d: u32) -> MongoErrorDomain {
    match d {
        0 => MongoErrorDomain::Blank,
        1 => MongoErrorDomain::Client,
        2 => MongoErrorDomain::Stream,
        3 => MongoErrorDomain::Protocol,
        4 => MongoErrorDomain::Cursor,
        5 => MongoErrorDomain::Query,
        6 => MongoErrorDomain::Insert,
        7 => MongoErrorDomain::Sasl,
        8 => MongoErrorDomain::Bson,
        9 => MongoErrorDomain::Matcher,
        10 => MongoErrorDomain::Namespace,
        11 => MongoErrorDomain::Command,
        12 => MongoErrorDomain::Collection,
        13 => MongoErrorDomain::Gridfs,
        14 => MongoErrorDomain::Scram,
        _ => MongoErrorDomain::Unknown,
    }
}

/// The code that the driver's number `c` stands for.
pub open spec fn code_of(c: u32) -> MongoErrorCode {
    match c {
        0 => MongoErrorCode::Blank,
        1 => MongoErrorCode::StreamInvalidType,
        2 => MongoErrorCode::StreamInvalidState,
        3 => MongoErrorCode::StreamNameResolution,
        4 => MongoErrorCode::StreamSocket,
        5 => MongoErrorCode::StreamConnect,
        6 => MongoErrorCode::StreamNotEstablished,
        7 => MongoErrorCode::ClientNotReady,
        8 => MongoErrorCode::ClientTooBig,
        9 => MongoErrorCode::ClientTooSmall,
        10 => MongoErrorCode::ClientGetnonce,
        11 => MongoErrorCode::ClientAuthenticate,
        12 => MongoErrorCode::ClientNoAcceptablePeer,
        13 => MongoErrorCode::ClientInExhaust,
        14 => MongoErrorCode::ProtocolInvalidReply,
        15 => MongoErrorCode::ProtocolBadWireVersion,
        16 => MongoErrorCode::CursorInvalidCursor,
        17 => MongoErrorCode::QueryFailure,
        18 => MongoErrorCode::BsonInvalid,
        19 => MongoErrorCode::MatcherInvalid,
        20 => MongoErrorCode::NamespaceInvalid,
        21 => MongoErrorCode::NamespaceInvalidFilterType,
        22 => MongoErrorCode::CommandInvalidArg,
        23 => MongoErrorCode::CollectionInsertFailed,
        24 => MongoErrorCode::CollectionUpdateFailed,
        25 => MongoErrorCode::CollectionDeleteFailed,
        26 => MongoErrorCode::CollectionDoesNotExist,
        27 => MongoErrorCode::GridfsInvalidFilename,
        28 => MongoErrorCode::ScramNotDone,
        29 => MongoErrorCode::ScramProtocolError,
        59 => MongoErrorCode::QueryCommandNotFound,
        13051 => MongoErrorCode::QueryNotTailable,
        _ => MongoErrorCode::Unknown,
    }
}

/// The fields of an error as the driver fills them in.
#[derive(Debug)]
pub struct ErrorInfo {
    pub domain: u32,
    pub code: u32,
    pub message: String,
}

/// An error reported by the driver: a domain, a code and a message, passed
/// through unchanged. Domain and code zero mean that there was no error.
#[derive(Debug)]
pub struct BsoncError {
    inner: ErrorInfo,
}

impl BsoncError {
    pub closed spec fn info(&self) -> ErrorInfo {
        self.inner
    }

    /// No error: domain and code zero, no message.
    pub fn empty() -> (r: BsoncError)
        ensures
            r.info().domain == 0,
            r.info().code == 0,
            r.info().message@ == Seq::<char>::empty(),
    {
        BsoncError { inner: ErrorInfo { domain: 0, code: 0, message: String::new() } }
    }

    /// The error that the driver described with these fields.
    pub fn new(domain: u32, code: u32, message: String) -> (r: BsoncError)
        ensures
            r.info() == (ErrorInfo { domain, code, message }),
    {
        BsoncError { inner: ErrorInfo { domain, code, message } }
    }

    /// Whether this stands for no error at all.
    pub fn is_empty(&self) -> (r: bool)
        ensures
            r == (self.info().domain == 0 && self.info().code == 0),
    {
        self.inner.domain == 0 && self.inner.code == 0
    }

    pub fn domain(&self) -> (r: MongoErrorDomain)
        ensures
            r == domain_of(self.info().domain),
    {
        match self.inner.domain {
            0 => MongoErrorDomain::Blank,
            1 => MongoErrorDomain::Client,
            2 => MongoErrorDomain::Stream,
            3 => MongoErrorDomain::Protocol,
            4 => MongoErrorDomain::Cursor,
            5 => MongoErrorDomain::Query,
            6 => MongoErrorDomain::Insert,
            7 => MongoErrorDomain::Sasl,
            8 => MongoErrorDomain::Bson,
            9 => MongoErrorDomain::Matcher,
            10 => MongoErrorDomain::Namespace,
            11 => MongoErrorDomain::Command,
            12 => MongoErrorDomain::Collection,
            13 => MongoErrorDomain::Gridfs,
            14 => MongoErrorDomain::Scram,
            _ => MongoErrorDomain::Unknown,
        }
    }

    pub fn code(&self) -> (r: MongoErrorCode)
        ensures
            r == code_of(self.info().code),
    {
        match self.inner.code {
            0 => MongoErrorCode::Blank,
            1 => MongoErrorCode::StreamInvalidType,
            2 => MongoErrorCode::StreamInvalidState,
            3 => MongoErrorCode::StreamNameResolution,
            4 => MongoErrorCode::StreamSocket,
            5 => MongoErrorCode::StreamConnect,
            6 => MongoErrorCode::StreamNotEstablished,
            7 => MongoErrorCode::ClientNotReady,
            8 => MongoErrorCode::ClientTooBig,
            9 => MongoErrorCode::ClientTooSmall,
            10 => MongoErrorCode::ClientGetnonce,
            11 => MongoErrorCode::ClientAuthenticate,
            12 => MongoErrorCode::ClientNoAcceptablePeer,
            13 => MongoErrorCode::ClientInExhaust,
            14 => MongoErrorCode::ProtocolInvalidReply,
            15 => MongoErrorCode::ProtocolBadWireVersion,
            16 => MongoErrorCode::CursorInvalidCursor,
            17 => MongoErrorCode::QueryFailure,
            18 => MongoErrorCode::BsonInvalid,
            19 => MongoErrorCode::MatcherInvalid,
            20 => MongoErrorCode::NamespaceInvalid,
            21 => MongoErrorCode::NamespaceInvalidFilterType,
            22 => MongoErrorCode::CommandInvalidArg,
            23 => MongoErrorCode::CollectionInsertFailed,
            24 => MongoErrorCode::CollectionUpdateFailed,
            25 => MongoErrorCode::CollectionDeleteFailed,
            26 => MongoErrorCode::CollectionDoesNotExist,
            27 => MongoErrorCode::GridfsInvalidFilename,
            28 => MongoErrorCode::ScramNotDone,
            29 => MongoErrorCode::ScramProtocolError,
            59 => MongoErrorCode::QueryCommandNotFound,
            13051 => MongoErrorCode::QueryNotTailable,
            _ => MongoErrorCode::Unknown,
        }
    }

    pub fn get_message(&self) -> (r: String)
        ensures
            r@ == self.info().message@,
    {
        self.inner.message.clone()
    }

    /// The raw fields, for the driver to fill in.
    pub fn mut_inner(&mut self) -> (r: &mut ErrorInfo)
        ensures
            *r == old(self).info(),
            final(self).info() == *final(r),
    {
        &mut self.inner
    }
}

/// The parameters of a call were refused before it reached the driver.
#[derive(Clone, Copy, Debug, PartialEq, Eq, Structural)]
pub struct InvalidParamsError;

/// Any error of this library.
#[derive(Debug)]
pub enum MongoError {
    Bsonc(BsoncError),
    Decoder(DecodingError),
    Encoder(EncodingError),
    ValueAccessError(crate::document::FieldAccessError),
    InvalidParams(InvalidParamsError),
}

} // verus!
