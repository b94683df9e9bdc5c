//! Errors, and the one 32-bit code under which each of them leaves the processor.
//!
//! An assertion error packs a source unit into bits 24..32 and a line number
//! into bits 0..24. A categorized error is its position in `DecefiErrorCode`.

use vstd::prelude::*;
use vstd::std_specs::convert::FromSpecImpl;

verus! {

/// The logical source unit in which an assertion failed.
#[derive(Debug, Clone, Copy, PartialEq, Eq)]
pub enum SourceFileId {
    Account,
    Decefi,
}

impl SourceFileId {
    /// The number that stands for the unit inside an error code.
    pub open spec fn spec_id(self) -> u8 {
        match self {
            SourceFileId::Account => 1,
            SourceFileId::Decefi => 2,
        }
    }

    /// The number that stands for the unit inside an error code.
    pub fn id(&self) -> (id: u8)
        ensures
            id == self.spec_id(),
    {
        match self {
            SourceFileId::Account => 1,
            SourceFileId::Decefi => 2,
        }
    }
}

/// A failed internal assertion: where it failed.
#[derive(Debug, Clone, Copy, PartialEq, Eq)]
pub struct AssertionError {
    pub line: u16,
    pub file_id: SourceFileId,
}

/// The code of an assertion error: the unit in the top byte, the line below it.
pub open spec fn assertion_code(err: AssertionError) -> u32 {
    (err.line + err.file_id.spec_id() * 0x100_0000) as u32
}

impl From<AssertionError> for u32 {
    fn from(err: AssertionError) -> (code: u32) {
        let unit: u32 = err.file_id.id() as u32;
        err.line as u32 + unit * 0x100_0000
    }
}

impl FromSpecImpl<AssertionError> for u32 {
    open spec fn obeys_from_spec() -> bool {
        true
    }

    open spec fn from_spec(err: AssertionError) -> u32 {
        assertion_code(err)
    }
}

/// The categories of failure.
#[derive(Debug, Clone, Copy, PartialEq, Eq)]
pub enum DecefiErrorCode {
    InvalidHash,
    InvalidAmount,
    CanceledByOracle,
    DeserializationFailed,
    NoPermission,
    NoTrade,
    WrongInput,
    BorrowError,
    AssertionError,
}

impl DecefiErrorCode {
    /// The position of the category in the enumeration, counted from 0.
    pub open spec fn ordinal(self) -> u32 {
        match self {
            DecefiErrorCode::InvalidHash => 0,
            DecefiErrorCode::InvalidAmount => 1,
            DecefiErrorCode::CanceledByOracle => 2,
            DecefiErrorCode::DeserializationFailed => 3,
            DecefiErrorCode::NoPermission => 4,
            DecefiErrorCode::NoTrade => 5,
            DecefiErrorCode::WrongInput => 6,
            DecefiErrorCode::BorrowError => 7,
            DecefiErrorCode::AssertionError => 8,
        }
    }

    /// The category at a position; positions past the last one give `AssertionError`.
    pub open spec fn at(ordinal: u32) -> DecefiErrorCode {
        if ordinal == 0 {
            DecefiErrorCode::InvalidHash
        } else if ordinal == 1 {
            DecefiErrorCode::InvalidAmount
        } else if ordinal == 2 {
            DecefiErrorCode::CanceledByOracle
        } else if ordinal == 3 {
            DecefiErrorCode::DeserializationFailed
        } else if ordinal == 4 {
            DecefiErrorCode::NoPermission
        } else if ordinal == 5 {
            DecefiErrorCode::NoTrade
        } else if ordinal == 6 {
            DecefiErrorCode::WrongInput
        } else if ordinal == 7 {
            DecefiErrorCode::BorrowError
        } else {
            DecefiErrorCode::AssertionError
        }
    }
}

impl From<DecefiErrorCode> for u32 {
    fn from(code: DecefiErrorCode) -> (ordinal: u32) {
        match code {
            DecefiErrorCode::InvalidHash => 0,
            DecefiErrorCode::InvalidAmount => 1,
            DecefiErrorCode::CanceledByOracle => 2,
            DecefiErrorCode::DeserializationFailed => 3,
            DecefiErrorCode::NoPermission => 4,
            DecefiErrorCode::NoTrade => 5,
            DecefiErrorCode::WrongInput => 6,
            DecefiErrorCode::BorrowError => 7,
            DecefiErrorCode::AssertionError => 8,
        }
    }
}

impl FromSpecImpl<DecefiErrorCode> for u32 {
    open spec fn obeys_from_spec() -> bool {
        true
    }

    open spec fn from_spec(code: DecefiErrorCode) -> u32 {
        code.ordinal()
    }
}

impl From<u32> for DecefiErrorCode {
    fn from(ordinal: u32) -> (code: DecefiErrorCode) {
        match ordinal {
            0 => DecefiErrorCode::InvalidHash,
            1 => DecefiErrorCode::InvalidAmount,
            2 => DecefiErrorCode::CanceledByOracle,
            3 => DecefiErrorCode::DeserializationFailed,
            4 => DecefiErrorCode::NoPermission,
            5 => DecefiErrorCode::NoTrade,
            6 => DecefiErrorCode::WrongInput,
            7 => DecefiErrorCode::BorrowError,
            _ => DecefiErrorCode::AssertionError,
        }
    }
}

impl FromSpecImpl<u32> for DecefiErrorCode {
    open spec fn obeys_from_spec() -> bool {
        true
    }

    open spec fn from_spec(ordinal: u32) -> DecefiErrorCode {
        DecefiErrorCode::at(ordinal)
    }
}

/// Every category is found again at its own ordinal.
pub proof fn lemma_code_at_ordinal(code: DecefiErrorCode)
    ensures
        code.ordinal() <= 8,
        DecefiErrorCode::at(code.ordinal()) == code,
{
}

/// What the processor fails with.
#[derive(Debug, Clone, Copy, PartialEq, Eq)]
pub enum DecefiError {
    /// A custom program error, held as its code: what assertion errors become.
    ProgramError(u32),
    /// A categorized error.
    ErrorCode(DecefiErrorCode),
}

impl DecefiError {
    /// The 32-bit code that the host is given.
    pub open spec fn code(self) -> u32 {
        match self {
            DecefiError::ProgramError(code) => code,
            DecefiError::ErrorCode(category) => category.ordinal(),
        }
    }
}

impl From<AssertionError> for DecefiError {
    fn from(err: AssertionError) -> (error: DecefiError) {
        let code: u32 = u32::from(err);
        DecefiError::ProgramError(code)
    }
}

impl FromSpecImpl<AssertionError> for DecefiError {
    open spec fn obeys_from_spec() -> bool {
        true
    }

    open spec fn from_spec(err: AssertionError) -> DecefiError {
        DecefiError::ProgramError(assertion_code(err))
    }
}

impl From<DecefiErrorCode> for DecefiError {
    fn from(code: DecefiErrorCode) -> (error: DecefiError) {
        DecefiError::ErrorCode(code)
    }
}

impl FromSpecImpl<DecefiErrorCode> for DecefiError {
    open spec fn obeys_from_spec() -> bool {
        true
    }

    open spec fn from_spec(code: DecefiErrorCode) -> DecefiError {
        DecefiError::ErrorCode(code)
    }
}

impl From<DecefiError> for u32 {
    fn from(error: DecefiError) -> (code: u32) {
        match error {
            DecefiError::ProgramError(code) => code,
            DecefiError::ErrorCode(category) => u32::from(category),
        }
    }
}

impl FromSpecImpl<DecefiError> for u32 {
    open spec fn obeys_from_spec() -> bool {
        true
    }

    open spec fn from_spec(error: DecefiError) -> u32 {
        error.code()
    }
}

/// The line and the unit of an assertion error are read back from its code
/// by division: nothing of either is lost in the packing.
pub proof fn lemma_assertion_code_fields(err: AssertionError)
    ensures
        assertion_code(err) % 0x100_0000 == err.line,
        assertion_code(err) / 0x100_0000 == err.file_id.spec_id(),
{
}

/// What every operation of the processor returns.
pub type DecefiResult<T = ()> = Result<T, DecefiError>;

} // verus!
