//! The ways in which a table operation is refused.
use vstd::prelude::*;

verus! {

/// Why a table operation was refused.
#[derive(Clone, Copy, Debug, PartialEq, Eq, Structural)]
pub enum FrameError {
    /// A type tag is not one of the four recognised tags.
    UnknownType,
    /// A piece of text is not a value of the type declared for it.
    ParseFailure,
    /// A requested label names no column of the table.
    UnknownColumn,
    /// A new column is not as long as the columns the table already has.
    RowCountMismatch,
    /// Labels, row widths or column types do not fit together.
    SchemaMismatch,
}

impl FrameError {
    /// A short description for diagnostics.
    pub fn describe(&self) -> (text: &'static str)
        ensures
            text@ == self.description(),
    {
        match self {
            FrameError::UnknownType => "unknown type",
            FrameError::ParseFailure => "a value does not parse as its declared type",
            FrameError::UnknownColumn => "column does not exist",
            FrameError::RowCountMismatch => "inconsistent number of rows",
            FrameError::SchemaMismatch => "the columns are not consistent",
        }
    }

    /// The text that [`FrameError::describe`] returns.
    pub open spec fn description(&self) -> Seq<char> {
        match self {
            FrameError::UnknownType => "unknown type"@,
            FrameError::ParseFailure => "a value does not parse as its declared type"@,
            FrameError::UnknownColumn => "column does not exist"@,
            FrameError::RowCountMismatch => "inconsistent number of rows"@,
            FrameError::SchemaMismatch => "the columns are not consistent"@,
        }
    }
}

} // verus!
