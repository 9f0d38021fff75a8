//! What can go wrong when records are read.

use vstd::prelude::*;
use vstd::string::StringExecFns;

verus! {

/// Why a record text stands for no session.
#[derive(Clone, Copy, Debug, PartialEq, Eq, Structural)]
pub enum ParseError {
    /// The text does not have the layout of a record.
    MalformedRecord,
    /// The layout is that of a record, but what stands for the start is no
    /// `YYYY-MM-DD HH:MM:SS` date-time.
    MalformedTimestamp,
}

impl ParseError {
    /// The error in words.
    pub fn message(&self) -> (words: String)
        ensures
            words@ == match *self {
                ParseError::MalformedRecord => "malformed record"@,
                ParseError::MalformedTimestamp => "malformed timestamp"@,
            },
    {
        match self {
            ParseError::MalformedRecord => String::from_str("malformed record"),
            ParseError::MalformedTimestamp => String::from_str("malformed timestamp"),
        }
    }
}

/// Why a directory of records could not be listed.
#[derive(Clone, Debug, PartialEq, Eq)]
pub enum StoreError {
    /// The directory or one of its files could not be read or written; the
    /// message is that of the operating system.
    Io { message: String },
    /// A file with the name of a record holds no record.
    Corrupt { path: String, cause: ParseError },
}

/// A `StoreError` as a value of the mathematical model.
pub enum StoreErrorView {
    Io { message: Seq<char> },
    Corrupt { path: Seq<char>, cause: ParseError },
}

impl View for StoreError {
    type V = StoreErrorView;

    open spec fn view(&self) -> StoreErrorView {
        match *self {
            StoreError::Io { message } => StoreErrorView::Io { message: message@ },
            StoreError::Corrupt { path, cause } => StoreErrorView::Corrupt { path: path@, cause },
        }
    }
}

impl StoreError {
    /// The error in words: for a failure of the operating system its message,
    /// for a corrupt record the path, a colon and the cause.
    pub fn message(&self) -> (words: String)
        ensures
            words@ == match self@ {
                StoreErrorView::Io { message } => message,
                StoreErrorView::Corrupt { path, cause } => path + ": "@ + match cause {
                    ParseError::MalformedRecord => "malformed record"@,
                    ParseError::MalformedTimestamp => "malformed timestamp"@,
                },
            },
    {
        match self {
            StoreError::Io { message } => message.clone(),
            StoreError::Corrupt { path, cause } => {
                let mut words = path.clone();
                words.append(": ");
                let cause_words = cause.message();
                words.append(cause_words.as_str());
                words
            },
        }
    }
}

} // verus!
