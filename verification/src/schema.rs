use vstd::prelude::*;
use vstd::string::StrSliceExecFns;
use vstd::utf8::encode_utf8;

use crate::keys::{Pubkey, KEY_BYTES};

verus! {

/// Maximum length of a title, in bytes of its encoding.
pub const MAX_TITLE_LEN: usize = 50;

/// Maximum length of a message, in bytes of its encoding.
pub const MAX_MESSAGE_LEN: usize = 1000;

/// Fixed overhead of a stored record: the discriminator tag the host uses
/// to distinguish record types.
pub const RECORD_OVERHEAD: u64 = 8;

/// Length prefix stored before each variable-length text field.
pub const LEN_PREFIX: u64 = 4;

/// Worst-case storage a slot must reserve for one record: the overhead tag,
/// the owner key, and both length-prefixed text fields at their maximum
/// sizes. The same figure is used at creation and at every update resize,
/// which is what makes resizing idempotent.
pub const ENTRY_SPACE: u64 = RECORD_OVERHEAD + 32 + LEN_PREFIX + 50 + LEN_PREFIX + 1000;

/// The host's storage-deposit rate, in lamports per reserved byte.
pub const DEPOSIT_PER_BYTE: u64 = 6960;

/// Storage deposit charged when a slot is allocated and refunded in full
/// when it is deallocated.
pub const ENTRY_DEPOSIT: u64 = DEPOSIT_PER_BYTE * ENTRY_SPACE;

/// Length of a text value in units: bytes of its encoding.
pub open spec fn text_len(s: Seq<char>) -> nat {
    encode_utf8(s).len()
}

/// The length of a field in units, as the boundary checks measure it.
pub fn field_len(s: &String) -> (r: usize)
    ensures
        r == text_len(s@),
{
    s.as_str().as_bytes_vec().len()
}

/// The mathematical value of a stored record: owner key bytes, title
/// characters and message characters.
pub struct RecordView {
    pub owner: Seq<u8>,
    pub title: Seq<char>,
    pub message: Seq<char>,
}

/// One persisted journal entry: the owning identity (set once at creation),
/// the title (immutable, address material) and the message (mutable).
#[derive(Clone, Debug, PartialEq, Eq)]
pub struct JournalEntryState {
    pub owner: Pubkey,
    pub title: String,
    pub message: String,
}

impl View for JournalEntryState {
    type V = RecordView;

    open spec fn view(&self) -> RecordView {
        RecordView { owner: self.owner@, title: self.title@, message: self.message@ }
    }
}

impl JournalEntryState {
    /// A well-formed record has a 32-byte owner key and fields within their
    /// declared maximum lengths.
    pub open spec fn wf(&self) -> bool {
        &&& self.owner.wf()
        &&& text_len(self@.title) <= MAX_TITLE_LEN
        &&& text_len(self@.message) <= MAX_MESSAGE_LEN
    }

    /// An independent copy of the record with the same value.
    pub fn snapshot(&self) -> (r: JournalEntryState)
        ensures
            r@ == self@,
            self.wf() ==> r.wf(),
    {
        JournalEntryState {
            owner: self.owner.duplicate(),
            title: self.title.clone(),
            message: self.message.clone(),
        }
    }
}

} // verus!
