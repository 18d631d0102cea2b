use vstd::prelude::*;

verus! {

/// The failures a lifecycle operation can surface. Every failure is detected
/// before any state is mutated, so a failed operation leaves the ledger
/// exactly as it was.
#[derive(Clone, Copy, Debug, PartialEq, Eq, Structural)]
pub enum EntryError {
    /// The host could not verify a signature for the claimed identity.
    InvalidSignature,
    /// The signing identity differs from the owner stored in the record.
    Unauthorized,
    /// A create targeted a slot that already holds a record.
    AlreadyExists,
    /// An update or delete targeted a slot that holds no record.
    NotFound,
    /// A title or message exceeds its declared maximum length.
    FieldTooLong,
    /// Address derivation exhausted its search space without finding a
    /// valid off-curve address. Defensive: practically never observed.
    NoValidBump,
    /// The payer cannot cover the storage deposit for the slot.
    InsufficientFunds,
}

} // verus!
