//! What can go wrong while an attempt is logged, and how it is reported.

use vstd::prelude::*;
use vstd::string::StringExecFns;

verus! {

/// A required text of a request.
#[derive(Clone, Copy, Debug, PartialEq, Eq, Structural)]
pub enum Field {
    SubjectName,
    MaterialName,
    ProblemTitle,
}

/// A rule of the store that an operation would have broken.
#[derive(Clone, Copy, Debug, PartialEq, Eq, Structural)]
pub enum StoreFault {
    /// The table has handed out its last row id.
    IdsExhausted,
    /// The row's id is not above every id the table has handed out.
    StaleId,
    /// A row with the same unique key is already there.
    Duplicate,
    /// The row names a parent row that does not exist.
    MissingParent,
    /// A value lies outside what its column admits.
    CheckFailed,
    /// A counter would leave the range of its column.
    CounterOverflow,
    /// The problem already has a batch without an end.
    OpenBatchExists,
}

/// The kind of an [`EngineError`], without its free text.
#[derive(Clone, Copy, Debug, PartialEq, Eq, Structural)]
pub enum Fault {
    Validation(Field),
    TimeFormat,
    Persistence(StoreFault),
}

/// The error of an engine operation.
#[derive(Debug)]
pub enum EngineError {
    /// A required text was empty or whitespace only.
    Validation(Field),
    /// A timestamp could not be read or written; the text says why.
    TimeFormat(String),
    /// The store refused a row.
    Persistence(StoreFault),
}

impl EngineError {
    /// The error's kind.
    pub open spec fn fault(self) -> Fault {
        match self {
            EngineError::Validation(field) => Fault::Validation(field),
            EngineError::TimeFormat(_) => Fault::TimeFormat,
            EngineError::Persistence(fault) => Fault::Persistence(fault),
        }
    }

    /// The error's kind, for callers that branch on it.
    pub fn kind(&self) -> (k: Fault)
        ensures
            k == self.fault(),
    {
        match self {
            EngineError::Validation(field) => Fault::Validation(*field),
            EngineError::TimeFormat(_) => Fault::TimeFormat,
            EngineError::Persistence(fault) => Fault::Persistence(*fault),
        }
    }

    /// The one-line message of an error.
    pub open spec fn message_text(self) -> Seq<char> {
        match self {
            EngineError::Validation(Field::SubjectName) => "Subject name cannot be empty"@,
            EngineError::Validation(Field::MaterialName) => "Material name cannot be empty"@,
            EngineError::Validation(Field::ProblemTitle) => "Problem title cannot be empty"@,
            EngineError::TimeFormat(detail) => "Time parse error: "@ + detail@,
            EngineError::Persistence(StoreFault::IdsExhausted) => "database or disk is full"@,
            EngineError::Persistence(StoreFault::StaleId) => "row id already used"@,
            EngineError::Persistence(StoreFault::Duplicate) => "UNIQUE constraint failed"@,
            EngineError::Persistence(StoreFault::MissingParent) => "FOREIGN KEY constraint failed"@,
            EngineError::Persistence(StoreFault::CheckFailed) => "CHECK constraint failed"@,
            EngineError::Persistence(StoreFault::CounterOverflow) => "integer out of range"@,
            EngineError::Persistence(StoreFault::OpenBatchExists) => "open batch already exists"@,
        }
    }

    /// Renders the error as the single descriptive message a caller sees.
    pub fn message(&self) -> (text: String)
        ensures
            text@ == self.message_text(),
    {
        match self {
            EngineError::Validation(Field::SubjectName) => String::from_str(
                "Subject name cannot be empty",
            ),
            EngineError::Validation(Field::MaterialName) => String::from_str(
                "Material name cannot be empty",
            ),
            EngineError::Validation(Field::ProblemTitle) => String::from_str(
                "Problem title cannot be empty",
            ),
            EngineError::TimeFormat(detail) => String::from_str("Time parse error: ").concat(
                detail.as_str(),
            ),
            EngineError::Persistence(StoreFault::IdsExhausted) => String::from_str(
                "database or disk is full",
            ),
            EngineError::Persistence(StoreFault::StaleId) => String::from_str(
                "row id already used",
            ),
            EngineError::Persistence(StoreFault::Duplicate) => String::from_str(
                "UNIQUE constraint failed",
            ),
            EngineError::Persistence(StoreFault::MissingParent) => String::from_str(
                "FOREIGN KEY constraint failed",
            ),
            EngineError::Persistence(StoreFault::CheckFailed) => String::from_str(
                "CHECK constraint failed",
            ),
            EngineError::Persistence(StoreFault::CounterOverflow) => String::from_str(
                "integer out of range",
            ),
            EngineError::Persistence(StoreFault::OpenBatchExists) => String::from_str(
                "open batch already exists",
            ),
        }
    }
}

} // verus!
