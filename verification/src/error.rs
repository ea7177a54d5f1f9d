//! The errors of the codec.

use vstd::prelude::*;

verus! {

/// The broad class of an error, as a byte-stream interface reports it.
#[derive(Clone, Copy, Debug, PartialEq, Eq, Structural)]
pub enum ErrorKind {
    /// The data is not what the format allows.
    InvalidInput,
    /// The data ended where more was owed.
    UnexpectedEof,
    /// Nothing is ready now; the same call may succeed later.
    WouldBlock,
    /// Anything else.
    Other,
}

/// What a read of the codec can fail with.
#[derive(Clone, Copy, Debug, PartialEq, Eq, Structural)]
pub enum GzError {
    /// The magic bytes or the compression method of a member are wrong.
    BadHeader,
    /// A checksum or a length does not match the data.
    Corrupt,
    /// The compressed body is not a deflate stream.
    BadDeflate,
    /// The source ended inside a member.
    UnexpectedEof,
    /// The source has nothing ready; the codec is unchanged but for header
    /// bytes it has put aside, and the call can be repeated.
    WouldBlock,
    /// The source itself failed; its own error stays with whoever drives it.
    Source,
}

impl GzError {
    /// The class of each error.
    pub open spec fn spec_kind(self) -> ErrorKind {
        match self {
            GzError::BadHeader => ErrorKind::InvalidInput,
            GzError::Corrupt => ErrorKind::InvalidInput,
            GzError::BadDeflate => ErrorKind::InvalidInput,
            GzError::UnexpectedEof => ErrorKind::UnexpectedEof,
            GzError::WouldBlock => ErrorKind::WouldBlock,
            GzError::Source => ErrorKind::Other,
        }
    }

    /// Whether a retry can succeed: only would-block is not final.
    pub open spec fn spec_is_fatal(self) -> bool {
        self != GzError::WouldBlock
    }

    /// The text that goes with each error.
    pub open spec fn spec_message(self) -> Seq<char> {
        match self {
            GzError::BadHeader => "invalid gzip header"@,
            GzError::Corrupt => "corrupt gzip stream does not have a matching checksum"@,
            GzError::BadDeflate => "corrupt deflate stream"@,
            GzError::UnexpectedEof => "unexpected end of file"@,
            GzError::WouldBlock => "operation would block"@,
            GzError::Source => "the underlying source failed"@,
        }
    }

    #[verifier::when_used_as_spec(spec_kind)]
    pub fn kind(self) -> (kind: ErrorKind)
        ensures
            kind == self.spec_kind(),
    {
        match self {
            GzError::BadHeader => ErrorKind::InvalidInput,
            GzError::Corrupt => ErrorKind::InvalidInput,
            GzError::BadDeflate => ErrorKind::InvalidInput,
            GzError::UnexpectedEof => ErrorKind::UnexpectedEof,
            GzError::WouldBlock => ErrorKind::WouldBlock,
            GzError::Source => ErrorKind::Other,
        }
    }

    #[verifier::when_used_as_spec(spec_is_fatal)]
    pub fn is_fatal(self) -> (fatal: bool)
        ensures
            fatal == self.spec_is_fatal(),
    {
        match self {
            GzError::WouldBlock => false,
            _ => true,
        }
    }

    pub fn message(self) -> (text: &'static str)
        ensures
            text@ == self.spec_message(),
    {
        match self {
            GzError::BadHeader => "invalid gzip header",
            GzError::Corrupt => "corrupt gzip stream does not have a matching checksum",
            GzError::BadDeflate => "corrupt deflate stream",
            GzError::UnexpectedEof => "unexpected end of file",
            GzError::WouldBlock => "operation would block",
            GzError::Source => "the underlying source failed",
        }
    }
}

/// The error for a checksum or length that does not match.
pub fn corrupt() -> (e: GzError)
    ensures
        e == GzError::Corrupt,
        e.spec_kind() == ErrorKind::InvalidInput,
{
    GzError::Corrupt
}

/// The error for a member that does not start as gzip does.
pub fn bad_header() -> (e: GzError)
    ensures
        e == GzError::BadHeader,
        e.spec_kind() == ErrorKind::InvalidInput,
{
    GzError::BadHeader
}

} // verus!
