//! The ways in which a ledger operation can fail.

use vstd::prelude::*;

verus! {

/// Why an operation was refused. A refused operation changes nothing.
#[derive(Clone, Copy, Debug, PartialEq, Eq, Structural)]
pub enum LedgerError {
    /// A donation arrived without any positive amount attached.
    NoFundsProvided,
    /// A text does not follow the grammar of a serialized coin bag, or a
    /// denomination cannot be written in that grammar.
    InvalidFormat,
    /// A sum of amounts does not fit into 128 bits.
    ArithmeticOverflow,
    /// Somebody other than the owner asked for the balance.
    Unauthorized,
    /// The owner or the fee collector was read before it was ever set.
    StorageNotFound,
}

impl LedgerError {
    /// The words in which the error is reported.
    pub open spec fn message_text(self) -> Seq<char> {
        match self {
            LedgerError::NoFundsProvided => "No funds provided"@,
            LedgerError::InvalidFormat => "Invalid format"@,
            LedgerError::ArithmeticOverflow => "Arithmetic overflow"@,
            LedgerError::Unauthorized => "Unauthorized"@,
            LedgerError::StorageNotFound => "Storage not found"@,
        }
    }

    /// The words in which the error is reported.
    pub fn message(&self) -> (text: &'static str)
        ensures
            text@ == self.message_text(),
    {
        match self {
            LedgerError::NoFundsProvided => "No funds provided",
            LedgerError::InvalidFormat => "Invalid format",
            LedgerError::ArithmeticOverflow => "Arithmetic overflow",
            LedgerError::Unauthorized => "Unauthorized",
            LedgerError::StorageNotFound => "Storage not found",
        }
    }
}

} // verus!
