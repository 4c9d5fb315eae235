//! The failures the repositories report, and their model.

use vstd::prelude::*;

verus! {

/// Why an operation was refused.
#[derive(Debug, PartialEq, Eq)]
pub enum SyncSqliteError {
    /// The operation needs something that is not enabled.
    NotImplemented(&'static str),
    /// A stored value is none this build writes.
    CorruptState(String),
    /// What the operation is about does not exist.
    NotFound(String),
    /// The request is not one the current state admits.
    InvalidInput(String),
    /// More than one live link names the group.
    AmbiguousLink { group_id: String, local_paths: Vec<String> },
    /// The caller's execution generation is not the transaction's own.
    ExecutionGenerationFenced { transaction_id: String, expected: i64, current: i64 },
    /// The row moved between the caller's read and its write.
    TransitionRaced { subject: String, expected_state: String, current_state: String },
    /// A reservation already held covers part of the requested range.
    ReservationConflict {
        transaction_id: String,
        path: String,
        blocking_transaction_id: String,
    },
    /// A row with the same primary key is already there.
    DuplicateKey(String),
    /// The table's own constraints refuse the row.
    ConstraintViolation(String),
    /// A stored column does not convert to the value it stands for.
    ColumnConversion(String),
    /// A stored text is not the JSON it is read as.
    Json(String),
}

/// A [`SyncSqliteError`] with its texts as sequences of characters.
pub enum Failure {
    NotImplemented(Seq<char>),
    CorruptState(Seq<char>),
    NotFound(Seq<char>),
    InvalidInput(Seq<char>),
    AmbiguousLink { group_id: Seq<char>, local_paths: Seq<Seq<char>> },
    ExecutionGenerationFenced { transaction_id: Seq<char>, expected: int, current: int },
    TransitionRaced { subject: Seq<char>, expected_state: Seq<char>, current_state: Seq<char> },
    ReservationConflict {
        transaction_id: Seq<char>,
        path: Seq<char>,
        blocking_transaction_id: Seq<char>,
    },
    DuplicateKey(Seq<char>),
    ConstraintViolation(Seq<char>),
    ColumnConversion(Seq<char>),
    Json(Seq<char>),
}

/// The texts of a list of strings.
pub open spec fn texts(strings: Seq<String>) -> Seq<Seq<char>> {
    strings.map_values(|s: String| s@)
}

impl View for SyncSqliteError {
    type V = Failure;

    open spec fn view(&self) -> Failure {
        match *self {
            SyncSqliteError::NotImplemented(what) => Failure::NotImplemented(what@),
            SyncSqliteError::CorruptState(what) => Failure::CorruptState(what@),
            SyncSqliteError::NotFound(what) => Failure::NotFound(what@),
            SyncSqliteError::InvalidInput(what) => Failure::InvalidInput(what@),
            SyncSqliteError::AmbiguousLink { group_id, local_paths } => Failure::AmbiguousLink {
                group_id: group_id@,
                local_paths: texts(local_paths@),
            },
            SyncSqliteError::ExecutionGenerationFenced { transaction_id, expected, current } => {
                Failure::ExecutionGenerationFenced {
                    transaction_id: transaction_id@,
                    expected: expected as int,
                    current: current as int,
                }
            },
            SyncSqliteError::TransitionRaced { subject, expected_state, current_state } => {
                Failure::TransitionRaced {
                    subject: subject@,
                    expected_state: expected_state@,
                    current_state: current_state@,
                }
            },
            SyncSqliteError::ReservationConflict {
                transaction_id,
                path,
                blocking_transaction_id,
            } => Failure::ReservationConflict {
                transaction_id: transaction_id@,
                path: path@,
                blocking_transaction_id: blocking_transaction_id@,
            },
            SyncSqliteError::DuplicateKey(what) => Failure::DuplicateKey(what@),
            SyncSqliteError::ConstraintViolation(what) => Failure::ConstraintViolation(what@),
            SyncSqliteError::ColumnConversion(what) => Failure::ColumnConversion(what@),
            SyncSqliteError::Json(what) => Failure::Json(what@),
        }
    }
}

/// What an operation that returns nothing answered.
pub open spec fn outcome(result: Result<(), SyncSqliteError>) -> Result<(), Failure> {
    match result {
        Ok(()) => Ok(()),
        Err(error) => Err(error@),
    }
}

} // verus!
