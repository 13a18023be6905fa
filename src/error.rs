//! Errors of the FBX reader.
use vstd::prelude::*;

verus! {

/// The kind of an I/O failure.
#[derive(Debug, Clone, Copy, PartialEq, Eq, Structural)]
pub enum IoErrorKind {
    /// The source ended before the bytes that were asked for.
    UnexpectedEof,
    /// The read was interrupted.
    Interrupted,
    /// The source held data that it could not read.
    InvalidData,
    /// Any other failure.
    Other,
}

/// An I/O failure of the byte source: its kind and its message.
#[derive(Debug)]
pub struct IoError {
    pub kind: IoErrorKind,
    pub message: String,
}

impl Clone for IoError {
    fn clone(&self) -> (r: Self)
        ensures
            r == *self,
    {
        IoError { kind: self.kind, message: self.message.clone() }
    }
}

/// Critical parse error: parsing cannot go on after it.
#[derive(Debug)]
pub enum Error {
    /// A node name is not valid UTF-8; the length of its longest valid prefix.
    Utf8Error(usize),
    /// The data does not start with the FBX binary magic.
    InvalidMagic,
    /// The byte source failed.
    Io(IoError),
    /// Corrupted or inconsistent FBX data.
    DataError(String),
    /// An unexpected value, after which parsing cannot go on; a kind of `DataError`.
    UnexpectedValue(String),
    /// The data ended too early.
    UnexpectedEof,
    /// A feature that is not implemented.
    Unimplemented(String),
}

/// An error as plain data.
pub enum ErrorView {
    Utf8Error(nat),
    InvalidMagic,
    Io(IoErrorKind, Seq<char>),
    DataError(Seq<char>),
    UnexpectedValue(Seq<char>),
    UnexpectedEof,
    Unimplemented(Seq<char>),
}

impl View for Error {
    type V = ErrorView;

    open spec fn view(&self) -> ErrorView {
        match self {
            Error::Utf8Error(n) => ErrorView::Utf8Error(*n as nat),
            Error::InvalidMagic => ErrorView::InvalidMagic,
            Error::Io(e) => ErrorView::Io(e.kind, e.message@),
            Error::DataError(m) => ErrorView::DataError(m@),
            Error::UnexpectedValue(m) => ErrorView::UnexpectedValue(m@),
            Error::UnexpectedEof => ErrorView::UnexpectedEof,
            Error::Unimplemented(m) => ErrorView::Unimplemented(m@),
        }
    }
}

impl Clone for Error {
    fn clone(&self) -> (r: Self)
        ensures
            r == *self,
    {
        match self {
            Error::Utf8Error(n) => Error::Utf8Error(*n),
            Error::InvalidMagic => Error::InvalidMagic,
            Error::Io(e) => Error::Io(e.clone()),
            Error::DataError(m) => Error::DataError(m.clone()),
            Error::UnexpectedValue(m) => Error::UnexpectedValue(m.clone()),
            Error::UnexpectedEof => Error::UnexpectedEof,
            Error::Unimplemented(m) => Error::Unimplemented(m.clone()),
        }
    }
}

/// The result of a reader operation.
pub type Result<T> = core::result::Result<T, Error>;

} // verus!
