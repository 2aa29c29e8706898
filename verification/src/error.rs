//! The failures that an operation on the tree can report.

use vstd::prelude::*;

verus! {

/// A failure of an operation on the tree. Each has a fixed one-byte code by
/// which it travels in a flat value.
#[derive(Clone, Copy, Debug, PartialEq, Eq, Structural)]
pub enum Error {
    ActionNotSupported,
    ExpectedNode,
    InvalidArgumentTypes,
    NoSuchEntry,
    PathEmpty,
    UnknownTypeFlags,
    WrongType,
}

/// The result of an operation on the tree.
pub type Result<T> = core::result::Result<T, Error>;

impl Error {
    /// The code of this failure.
    pub open spec fn spec_code(self) -> u8 {
        match self {
            Error::ActionNotSupported => 0x1,
            Error::ExpectedNode => 0x2,
            Error::InvalidArgumentTypes => 0x3,
            Error::NoSuchEntry => 0x4,
            Error::PathEmpty => 0x5,
            Error::UnknownTypeFlags => 0x6,
            Error::WrongType => 0x7,
        }
    }

    /// The failure that a code stands for.
    pub open spec fn spec_from_code(code: u8) -> Option<Error> {
        match code {
            0x1 => Some(Error::ActionNotSupported),
            0x2 => Some(Error::ExpectedNode),
            0x3 => Some(Error::InvalidArgumentTypes),
            0x4 => Some(Error::NoSuchEntry),
            0x5 => Some(Error::PathEmpty),
            0x6 => Some(Error::UnknownTypeFlags),
            0x7 => Some(Error::WrongType),
            _ => None,
        }
    }

    /// The code of this failure.
    pub fn code(self) -> (code: u8)
        ensures
            code == self.spec_code(),
            1 <= code <= 7,
            Error::spec_from_code(code) == Some(self),
    {
        match self {
            Error::ActionNotSupported => 0x1,
            Error::ExpectedNode => 0x2,
            Error::InvalidArgumentTypes => 0x3,
            Error::NoSuchEntry => 0x4,
            Error::PathEmpty => 0x5,
            Error::UnknownTypeFlags => 0x6,
            Error::WrongType => 0x7,
        }
    }

    /// The failure that a code stands for, if it stands for one.
    pub fn from_code(code: u8) -> (error: Option<Error>)
        ensures
            error == Error::spec_from_code(code),
            error.is_some() <==> 1 <= code <= 7,
            error matches Some(e) ==> e.spec_code() == code,
    {
        match code {
            0x1 => Some(Error::ActionNotSupported),
            0x2 => Some(Error::ExpectedNode),
            0x3 => Some(Error::InvalidArgumentTypes),
            0x4 => Some(Error::NoSuchEntry),
            0x5 => Some(Error::PathEmpty),
            0x6 => Some(Error::UnknownTypeFlags),
            0x7 => Some(Error::WrongType),
            _ => None,
        }
    }

    /// A short description of this failure.
    pub fn message(&self) -> (text: &'static str)
        ensures
            text@ == (match *self {
                Error::ActionNotSupported => "Action not supported"@,
                Error::ExpectedNode => "Expected node"@,
                Error::InvalidArgumentTypes => "Invalid argument types"@,
                Error::NoSuchEntry => "No such entry"@,
                Error::PathEmpty => "No such entry"@,
                Error::UnknownTypeFlags => "Unknown type"@,
                Error::WrongType => "Wrong type"@,
            }),
    {
        match self {
            Error::ActionNotSupported => "Action not supported",
            Error::ExpectedNode => "Expected node",
            Error::InvalidArgumentTypes => "Invalid argument types",
            Error::NoSuchEntry => "No such entry",
            Error::PathEmpty => "No such entry",
            Error::UnknownTypeFlags => "Unknown type",
            Error::WrongType => "Wrong type",
        }
    }
}

} // verus!
