//! The failure kinds that ledger operations report.

use vstd::prelude::*;

verus! {

/// Everything that can go wrong in a ledger operation, other than a
/// signature check coming back `false` (which is an ordinary result,
/// not a failure).
#[derive(Debug, Clone, PartialEq, Eq, Structural)]
pub enum Error {
    /// The backing key-value store failed to open, read, write or flush.
    Storage,
    /// The system clock could not supply a timestamp.
    Clock,
    /// The store holds no chain yet: it must be created first.
    NotInitialized,
    /// A transaction references a prior transaction that is absent from
    /// the supplied lookup, or one whose id is empty.
    DanglingInput,
    /// A transfer asked for more than the sender's spendable balance;
    /// carries the value that was actually available.
    InsufficientFunds(i64),
    /// Every nonce in the machine-representable search space was tried
    /// without satisfying the difficulty predicate.
    NonceExhausted,
}

} // verus!
