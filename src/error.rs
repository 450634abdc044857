use vstd::prelude::*;

verus! {

/// What can go wrong while decoding, handling or encoding a message.
#[derive(Debug)]
pub enum Error {
    /// An api-version outside the supported range.
    UnsupportedVersion,
    /// Malformed input at the codec level.
    IllegalArgument(&'static str),
    /// Not enough bytes yet; the caller keeps its buffer and reads more.
    BufferUnderflow,
    /// Bytes that had to be text were not UTF-8.
    Utf8Error,
    /// An api-key that the server does not handle.
    UnknownRequest(i16),
    /// A file or socket failure, with its description.
    IOError(String),
}

impl Error {
    /// Tells the `IllegalArgument` variant apart, whatever its reason.
    pub open spec fn is_illegal(&self) -> bool {
        self is IllegalArgument
    }
}

impl Error {
    /// A copy of the error: the same variant and payload (an I/O error's text compared as
    /// characters).
    pub fn duplicate(&self) -> (r: Error)
        ensures
            self.same(r),
    {
        match self {
            Error::UnsupportedVersion => Error::UnsupportedVersion,
            Error::IllegalArgument(m) => Error::IllegalArgument(m),
            Error::BufferUnderflow => Error::BufferUnderflow,
            Error::Utf8Error => Error::Utf8Error,
            Error::UnknownRequest(k) => Error::UnknownRequest(*k),
            Error::IOError(s) => Error::IOError(s.clone()),
        }
    }

    pub open spec fn same(&self, o: Error) -> bool {
        match self {
            Error::IOError(s) => o is IOError && o->IOError_0@ == s@,
            _ => o == *self,
        }
    }

    /// Whether the connection must close on this error: on all but `BufferUnderflow`, which
    /// only asks for more bytes.
    pub fn closes_connection(&self) -> (r: bool)
        ensures
            r == !(self is BufferUnderflow),
    {
        match self {
            Error::BufferUnderflow => false,
            _ => true,
        }
    }
}

} // verus!
