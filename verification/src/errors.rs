//! The ways in which an operation of the contact manager can fail.
use vstd::prelude::*;
use vstd::std_specs::cmp::PartialEqSpecImpl;

verus! {

/// What went wrong in an operation of the contact manager.
#[derive(Debug)]
pub enum ProgramError {
    /// A table could not be drawn.
    PrintTableError,
    /// No entry matched an identifier or a query.
    EntryNotFoundError,
    /// The data file could not be opened, read or replaced.
    DataAccessError,
    /// A new entry could not be written to the data file.
    WriteError,
    /// Another failure, described by `val`.
    CustomError { val: String },
}

/// A `ProgramError` with its text as a sequence of characters.
pub enum ErrorView {
    PrintTableError,
    EntryNotFoundError,
    DataAccessError,
    WriteError,
    CustomError { val: Seq<char> },
}

impl View for ProgramError {
    type V = ErrorView;

    open spec fn view(&self) -> ErrorView {
        match self {
            ProgramError::PrintTableError => ErrorView::PrintTableError,
            ProgramError::EntryNotFoundError => ErrorView::EntryNotFoundError,
            ProgramError::DataAccessError => ErrorView::DataAccessError,
            ProgramError::WriteError => ErrorView::WriteError,
            ProgramError::CustomError { val } => ErrorView::CustomError { val: val@ },
        }
    }
}

impl PartialEq for ProgramError {
    /// Two errors are equal when they are of the same kind and, for a
    /// `CustomError`, hold the same text.
    fn eq(&self, other: &Self) -> (r: bool) {
        match (self, other) {
            (ProgramError::PrintTableError, ProgramError::PrintTableError) => true,
            (ProgramError::EntryNotFoundError, ProgramError::EntryNotFoundError) => true,
            (ProgramError::DataAccessError, ProgramError::DataAccessError) => true,
            (ProgramError::WriteError, ProgramError::WriteError) => true,
            (ProgramError::CustomError { val: v1 }, ProgramError::CustomError { val: v2 }) => *v1
                == *v2,
            _ => false,
        }
    }
}

impl PartialEqSpecImpl for ProgramError {
    open spec fn obeys_eq_spec() -> bool {
        true
    }

    open spec fn eq_spec(&self, other: &Self) -> bool {
        self@ == other@
    }
}

} // verus!
