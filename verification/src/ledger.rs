use vstd::prelude::*;

use crate::address::derived_entry;
use crate::errors::EntryError;
use crate::keys::Pubkey;
use crate::schema::{
    field_len,
    text_len, JournalEntryState, RecordView, ENTRY_DEPOSIT, ENTRY_SPACE, MAX_MESSAGE_LEN,
    MAX_TITLE_LEN,
};

verus! {

// ---------------------------------------------------------------------------
// Slots and balances
// ---------------------------------------------------------------------------
/// One occupied storage slot: the record, the derived address it lives at,
/// the bump seed that derivation found, the bytes reserved for it and the
/// deposit held against them.
pub struct Slot {
    pub record: JournalEntryState,
    pub address: Pubkey,
    pub bump: u8,
    pub space: u64,
    pub deposit: u64,
}

/// The mathematical value of an occupied slot.
pub struct SlotView {
    pub record: RecordView,
    pub bump: u8,
    pub space: u64,
    pub deposit: u64,
}

impl View for Slot {
    type V = SlotView;

    open spec fn view(&self) -> SlotView {
        SlotView {
            record: self.record@,
            bump: self.bump,
            space: self.space,
            deposit: self.deposit,
        }
    }
}

impl Slot {
    /// A well-formed slot holds a well-formed record, sits at the address
    /// derived from the record's title and owner, and reserves exactly the
    /// worst-case space with the deposit that pays for it.
    pub open spec fn wf(&self) -> bool {
        &&& self.record.wf()
        &&& self.address.wf()
        &&& self.space == ENTRY_SPACE
        &&& self.deposit == ENTRY_DEPOSIT
        &&& derived_entry(self.record.title@, self.record.owner@) == Some(
            (self.address@, self.bump),
        )
    }
}

/// One identity's general balance of lamports.
pub struct BalanceEntry {
    pub id: Pubkey,
    pub lamports: u64,
}

// ---------------------------------------------------------------------------
// The spec-level model of the stored state
// ---------------------------------------------------------------------------
/// Index `i` holds a slot at address `a`.
pub open spec fn slot_match(slots: Seq<Slot>, a: Seq<u8>, i: int) -> bool {
    0 <= i < slots.len() && slots[i].address@ == a
}

/// Some slot lives at address `a`.
pub open spec fn seq_has_entry(slots: Seq<Slot>, a: Seq<u8>) -> bool {
    exists|i: int| slot_match(slots, a, i)
}

/// The index of the slot at address `a`, when one exists.
pub open spec fn seq_entry_index(slots: Seq<Slot>, a: Seq<u8>) -> int {
    choose|i: int| slot_match(slots, a, i)
}

/// The slot stored at address `a`, if any.
pub open spec fn seq_entry_at(slots: Seq<Slot>, a: Seq<u8>) -> Option<SlotView> {
    if seq_has_entry(slots, a) {
        Some(slots[seq_entry_index(slots, a)]@)
    } else {
        None
    }
}

/// No two slots share an address.
pub open spec fn slot_addrs_unique(slots: Seq<Slot>) -> bool {
    forall|i: int, j: int|
        0 <= i < j < slots.len() ==> (#[trigger] slots[i]).address@ != (#[trigger] slots[j]).address@
}

/// Index `i` holds the balance of identity `id`.
pub open spec fn bal_match(balances: Seq<BalanceEntry>, id: Seq<u8>, i: int) -> bool {
    0 <= i < balances.len() && balances[i].id@ == id
}

/// Some balance entry belongs to identity `id`.
pub open spec fn seq_has_balance(balances: Seq<BalanceEntry>, id: Seq<u8>) -> bool {
    exists|i: int| bal_match(balances, id, i)
}

/// The lamports held by identity `id`: zero for an identity with no entry.
pub open spec fn seq_balance_of(balances: Seq<BalanceEntry>, id: Seq<u8>) -> u64 {
    if seq_has_balance(balances, id) {
        balances[choose|i: int| bal_match(balances, id, i)].lamports
    } else {
        0
    }
}

/// No two balance entries share an identity.
pub open spec fn bal_ids_unique(balances: Seq<BalanceEntry>) -> bool {
    forall|i: int, j: int|
        0 <= i < j < balances.len() ==> (#[trigger] balances[i]).id@ != (
        #[trigger] balances[j]).id@
}

/// Addition that stops at the largest representable balance.
pub open spec fn sat_add(a: u64, b: u64) -> u64 {
    if a + b <= u64::MAX {
        (a + b) as u64
    } else {
        u64::MAX
    }
}

// ---------------------------------------------------------------------------
// Lemmas about the model
// ---------------------------------------------------------------------------
proof fn lemma_slot_match_unique(slots: Seq<Slot>, a: Seq<u8>, i: int, j: int)
    requires
        slot_addrs_unique(slots),
        slot_match(slots, a, i),
        slot_match(slots, a, j),
    ensures
        i == j,
{
    if i < j {
        assert(slots[i].address@ != slots[j].address@);
    }
    if j < i {
        assert(slots[j].address@ != slots[i].address@);
    }
}

proof fn lemma_bal_match_unique(balances: Seq<BalanceEntry>, id: Seq<u8>, i: int, j: int)
    requires
        bal_ids_unique(balances),
        bal_match(balances, id, i),
        bal_match(balances, id, j),
    ensures
        i == j,
{
    if i < j {
        assert(balances[i].id@ != balances[j].id@);
    }
    if j < i {
        assert(balances[j].id@ != balances[i].id@);
    }
}

/// Appending a slot at a fresh address adds exactly that entry.
proof fn lemma_entry_push(pre: Seq<Slot>, post: Seq<Slot>, slot: Slot)
    requires
        post == pre.push(slot),
        slot_addrs_unique(pre),
        !seq_has_entry(pre, slot.address@),
    ensures
        slot_addrs_unique(post),
        seq_entry_at(post, slot.address@) == Some(slot@),
        forall|x: Seq<u8>|
            x != slot.address@ ==> #[trigger] seq_entry_at(post, x) == seq_entry_at(pre, x),
{
    assert forall|i: int, j: int| 0 <= i < j < post.len() implies (#[trigger] post[i]).address@ != (
    #[trigger] post[j]).address@ by {
        if j < pre.len() {
            assert(pre[i].address@ != pre[j].address@);
        } else {
            assert(post[j] == slot);
            assert(!slot_match(pre, slot.address@, i));
        }
    }
    assert(slot_match(post, slot.address@, pre.len() as int));
    let k = seq_entry_index(post, slot.address@);
    assert(slot_match(post, slot.address@, k));
    lemma_slot_match_unique(post, slot.address@, k, pre.len() as int);
    assert forall|x: Seq<u8>| x != slot.address@ implies #[trigger] seq_entry_at(post, x)
        == seq_entry_at(pre, x) by {
        if seq_has_entry(post, x) {
            let j = seq_entry_index(post, x);
            assert(slot_match(post, x, j));
            assert(j < pre.len());
            assert(slot_match(pre, x, j));
            let k2 = seq_entry_index(pre, x);
            assert(slot_match(pre, x, k2));
            assert(slot_match(post, x, k2));
            lemma_slot_match_unique(post, x, j, k2);
        }
        if seq_has_entry(pre, x) {
            let j = seq_entry_index(pre, x);
            assert(slot_match(pre, x, j));
            assert(slot_match(post, x, j));
        }
    }
}

/// Replacing the slot at index `i` by one at the same address rewrites
/// exactly that entry.
proof fn lemma_entry_update(pre: Seq<Slot>, post: Seq<Slot>, i: int, slot: Slot)
    requires
        0 <= i < pre.len(),
        slot.address@ == pre[i].address@,
        post == pre.update(i, slot),
        slot_addrs_unique(pre),
    ensures
        slot_addrs_unique(post),
        seq_entry_at(post, slot.address@) == Some(slot@),
        forall|x: Seq<u8>|
            x != slot.address@ ==> #[trigger] seq_entry_at(post, x) == seq_entry_at(pre, x),
{
    assert forall|a: int, b: int| 0 <= a < b < post.len() implies (#[trigger] post[a]).address@ != (
    #[trigger] post[b]).address@ by {
        assert(pre[a].address@ != pre[b].address@);
        assert(post[a].address@ == pre[a].address@ || (a == i && post[a] == slot));
        assert(post[b].address@ == pre[b].address@ || (b == i && post[b] == slot));
    }
    assert(slot_match(post, slot.address@, i));
    let k = seq_entry_index(post, slot.address@);
    assert(slot_match(post, slot.address@, k));
    lemma_slot_match_unique(post, slot.address@, k, i);
    assert forall|x: Seq<u8>| x != slot.address@ implies #[trigger] seq_entry_at(post, x)
        == seq_entry_at(pre, x) by {
        if seq_has_entry(post, x) {
            let j = seq_entry_index(post, x);
            assert(slot_match(post, x, j));
            assert(j != i);
            assert(slot_match(pre, x, j));
            let k2 = seq_entry_index(pre, x);
            assert(slot_match(pre, x, k2));
            assert(k2 != i);
            assert(slot_match(post, x, k2));
            lemma_slot_match_unique(post, x, j, k2);
        }
        if seq_has_entry(pre, x) {
            let j = seq_entry_index(pre, x);
            assert(slot_match(pre, x, j));
            assert(j != i);
            assert(slot_match(post, x, j));
        }
    }
}

/// Removing the slot at index `i` clears exactly its address.
proof fn lemma_entry_remove(pre: Seq<Slot>, post: Seq<Slot>, i: int)
    requires
        0 <= i < pre.len(),
        post == pre.remove(i),
        slot_addrs_unique(pre),
    ensures
        slot_addrs_unique(post),
        seq_entry_at(post, pre[i].address@) is None,
        forall|x: Seq<u8>|
            x != pre[i].address@ ==> #[trigger] seq_entry_at(post, x) == seq_entry_at(pre, x),
{
    assert forall|a: int, b: int| 0 <= a < b < post.len() implies (#[trigger] post[a]).address@ != (
    #[trigger] post[b]).address@ by {
        let a0 = if a < i { a } else { a + 1 };
        let b0 = if b < i { b } else { b + 1 };
        assert(post[a] == pre[a0]);
        assert(post[b] == pre[b0]);
        assert(pre[a0].address@ != pre[b0].address@);
    }
    if seq_has_entry(post, pre[i].address@) {
        let j = seq_entry_index(post, pre[i].address@);
        assert(slot_match(post, pre[i].address@, j));
        let j0 = if j < i { j } else { j + 1 };
        assert(post[j] == pre[j0]);
        assert(slot_match(pre, pre[i].address@, j0));
        assert(slot_match(pre, pre[i].address@, i));
        lemma_slot_match_unique(pre, pre[i].address@, j0, i);
        assert(false);
    }
    assert forall|x: Seq<u8>| x != pre[i].address@ implies #[trigger] seq_entry_at(post, x)
        == seq_entry_at(pre, x) by {
        if seq_has_entry(post, x) {
            let j = seq_entry_index(post, x);
            assert(slot_match(post, x, j));
            let j0 = if j < i { j } else { j + 1 };
            assert(post[j] == pre[j0]);
            assert(slot_match(pre, x, j0));
            let k = seq_entry_index(pre, x);
            assert(slot_match(pre, x, k));
            assert(k != i);
            let k1 = if k < i { k } else { k - 1 };
            assert(post[k1] == pre[k]);
            assert(slot_match(post, x, k1));
            lemma_slot_match_unique(post, x, j, k1);
        }
        if seq_has_entry(pre, x) {
            let k = seq_entry_index(pre, x);
            assert(slot_match(pre, x, k));
            assert(k != i);
            let k1 = if k < i { k } else { k - 1 };
            assert(post[k1] == pre[k]);
            assert(slot_match(post, x, k1));
        }
    }
}

/// Rewriting the lamports at index `i` changes exactly that identity's
/// balance.
proof fn lemma_balance_update(pre: Seq<BalanceEntry>, post: Seq<BalanceEntry>, i: int, amount: u64)
    requires
        0 <= i < pre.len(),
        post == pre.update(i, BalanceEntry { id: pre[i].id, lamports: amount }),
        bal_ids_unique(pre),
    ensures
        bal_ids_unique(post),
        seq_balance_of(post, pre[i].id@) == amount,
        forall|x: Seq<u8>|
            x != pre[i].id@ ==> #[trigger] seq_balance_of(post, x) == seq_balance_of(pre, x),
        forall|k: int| 0 <= k < post.len() ==> (#[trigger] post[k]).id == pre[k].id,
{
    assert forall|a: int, b: int| 0 <= a < b < post.len() implies (#[trigger] post[a]).id@ != (
    #[trigger] post[b]).id@ by {
        assert(pre[a].id@ != pre[b].id@);
    }
    assert(bal_match(post, pre[i].id@, i));
    let k = choose|k: int| bal_match(post, pre[i].id@, k);
    assert(bal_match(post, pre[i].id@, k));
    lemma_bal_match_unique(post, pre[i].id@, k, i);
    assert forall|x: Seq<u8>| x != pre[i].id@ implies #[trigger] seq_balance_of(post, x)
        == seq_balance_of(pre, x) by {
        if seq_has_balance(post, x) {
            let j = choose|j: int| bal_match(post, x, j);
            assert(bal_match(post, x, j));
            assert(j != i);
            assert(bal_match(pre, x, j));
            let k2 = choose|k2: int| bal_match(pre, x, k2);
            assert(bal_match(pre, x, k2));
            assert(k2 != i);
            assert(bal_match(post, x, k2));
            lemma_bal_match_unique(post, x, j, k2);
        }
        if seq_has_balance(pre, x) {
            let j = choose|j: int| bal_match(pre, x, j);
            assert(bal_match(pre, x, j));
            assert(j != i);
            assert(bal_match(post, x, j));
        }
    }
}

/// Appending a balance entry for a fresh identity adds exactly that
/// balance.
proof fn lemma_balance_push(pre: Seq<BalanceEntry>, post: Seq<BalanceEntry>, entry: BalanceEntry)
    requires
        post == pre.push(entry),
        bal_ids_unique(pre),
        !seq_has_balance(pre, entry.id@),
    ensures
        bal_ids_unique(post),
        seq_balance_of(post, entry.id@) == entry.lamports,
        forall|x: Seq<u8>|
            x != entry.id@ ==> #[trigger] seq_balance_of(post, x) == seq_balance_of(pre, x),
{
    assert forall|a: int, b: int| 0 <= a < b < post.len() implies (#[trigger] post[a]).id@ != (
    #[trigger] post[b]).id@ by {
        if b < pre.len() {
            assert(pre[a].id@ != pre[b].id@);
        } else {
            assert(post[b] == entry);
            assert(!bal_match(pre, entry.id@, a));
        }
    }
    assert(bal_match(post, entry.id@, pre.len() as int));
    let k = choose|k: int| bal_match(post, entry.id@, k);
    assert(bal_match(post, entry.id@, k));
    lemma_bal_match_unique(post, entry.id@, k, pre.len() as int);
    assert forall|x: Seq<u8>| x != entry.id@ implies #[trigger] seq_balance_of(post, x)
        == seq_balance_of(pre, x) by {
        if seq_has_balance(post, x) {
            let j = choose|j: int| bal_match(post, x, j);
            assert(bal_match(post, x, j));
            assert(j < pre.len());
            assert(bal_match(pre, x, j));
            let k2 = choose|k2: int| bal_match(pre, x, k2);
            assert(bal_match(pre, x, k2));
            assert(bal_match(post, x, k2));
            lemma_bal_match_unique(post, x, j, k2);
        }
        if seq_has_balance(pre, x) {
            let j = choose|j: int| bal_match(pre, x, j);
            assert(bal_match(pre, x, j));
            assert(bal_match(post, x, j));
        }
    }
}

// ---------------------------------------------------------------------------
// The ledger
// ---------------------------------------------------------------------------
/// The stored state the host keeps on behalf of this program: the occupied
/// slots, addressed by derivation, and the general balances that storage
/// deposits are charged to and refunded to.
pub struct Ledger {
    pub slots: Vec<Slot>,
    pub balances: Vec<BalanceEntry>,
}

impl Ledger {
    /// The slot stored at address `a`, if any.
    pub open spec fn entry_at(self, a: Seq<u8>) -> Option<SlotView> {
        seq_entry_at(self.slots@, a)
    }

    /// The lamports held by identity `id`.
    pub open spec fn balance_of(self, id: Seq<u8>) -> u64 {
        seq_balance_of(self.balances@, id)
    }

    /// Well-formedness: slots are self-consistent and pairwise distinct by
    /// address; balances belong to well-formed, pairwise distinct identities.
    pub open spec fn wf(self) -> bool {
        &&& slot_addrs_unique(self.slots@)
        &&& forall|i: int| 0 <= i < self.slots@.len() ==> (#[trigger] self.slots@[i]).wf()
        &&& bal_ids_unique(self.balances@)
        &&& forall|i: int|
            0 <= i < self.balances@.len() ==> (#[trigger] self.balances@[i]).id.wf()
    }
}

// ---------------------------------------------------------------------------
// Operation contexts
// ---------------------------------------------------------------------------
/// What the host resolves for a create: the identity that will own the
/// record (also the payer of its deposit), and whether the caller presented
/// a valid signature for it.
pub struct CreateEntry {
    pub owner: Pubkey,
    pub signature_valid: bool,
}

impl CreateEntry {
    pub open spec fn wf(&self) -> bool {
        self.owner.wf()
    }
}

/// What the host resolves for an update: the owner the record is addressed
/// under, the identity that signed the request, and the host's verdict on
/// that signature.
pub struct UpdateEntry {
    pub owner: Pubkey,
    pub signer: Pubkey,
    pub signature_valid: bool,
}

impl UpdateEntry {
    pub open spec fn wf(&self) -> bool {
        self.owner.wf() && self.signer.wf()
    }
}

/// What the host resolves for a delete: the owner the record is addressed
/// under, the identity that signed the request, and the host's verdict on
/// that signature.
pub struct DeleteEntry {
    pub owner: Pubkey,
    pub signer: Pubkey,
    pub signature_valid: bool,
}

impl DeleteEntry {
    pub open spec fn wf(&self) -> bool {
        self.owner.wf() && self.signer.wf()
    }
}

// ---------------------------------------------------------------------------
// Outcomes: which result each operation returns, for every input
// ---------------------------------------------------------------------------
/// The result create returns on a given pre-state and inputs.
pub open spec fn create_outcome(
    pre: Ledger,
    title: Seq<char>,
    message: Seq<char>,
    owner: Seq<u8>,
    signature_valid: bool,
) -> Result<(), EntryError> {
    if !signature_valid {
        Err(EntryError::InvalidSignature)
    } else if text_len(title) > MAX_TITLE_LEN || text_len(message) > MAX_MESSAGE_LEN {
        Err(EntryError::FieldTooLong)
    } else {
        match derived_entry(title, owner) {
            None => Err(EntryError::NoValidBump),
            Some((address, _bump)) => {
                if pre.entry_at(address) is Some {
                    Err(EntryError::AlreadyExists)
                } else if pre.balance_of(owner) < ENTRY_DEPOSIT {
                    Err(EntryError::InsufficientFunds)
                } else {
                    Ok(())
                }
            },
        }
    }
}

/// The result update returns on a given pre-state and inputs.
pub open spec fn update_outcome(
    pre: Ledger,
    title: Seq<char>,
    message: Seq<char>,
    owner: Seq<u8>,
    signer: Seq<u8>,
    signature_valid: bool,
) -> Result<(), EntryError> {
    if !signature_valid {
        Err(EntryError::InvalidSignature)
    } else if text_len(title) > MAX_TITLE_LEN || text_len(message) > MAX_MESSAGE_LEN {
        Err(EntryError::FieldTooLong)
    } else {
        match derived_entry(title, owner) {
            None => Err(EntryError::NoValidBump),
            Some((address, _bump)) => match pre.entry_at(address) {
                None => Err(EntryError::NotFound),
                Some(sv) => {
                    if signer != sv.record.owner {
                        Err(EntryError::Unauthorized)
                    } else {
                        Ok(())
                    }
                },
            },
        }
    }
}

/// The result delete returns on a given pre-state and inputs.
pub open spec fn delete_outcome(
    pre: Ledger,
    title: Seq<char>,
    owner: Seq<u8>,
    signer: Seq<u8>,
    signature_valid: bool,
) -> Result<(), EntryError> {
    if !signature_valid {
        Err(EntryError::InvalidSignature)
    } else if text_len(title) > MAX_TITLE_LEN {
        Err(EntryError::FieldTooLong)
    } else {
        match derived_entry(title, owner) {
            None => Err(EntryError::NoValidBump),
            Some((address, _bump)) => match pre.entry_at(address) {
                None => Err(EntryError::NotFound),
                Some(sv) => {
                    if signer != sv.record.owner {
                        Err(EntryError::Unauthorized)
                    } else {
                        Ok(())
                    }
                },
            },
        }
    }
}

/// The slot a read of `(title, owner)` resolves to.
pub open spec fn slot_view_outcome(l: Ledger, title: Seq<char>, owner: Seq<u8>) -> Result<
    SlotView,
    EntryError,
> {
    match derived_entry(title, owner) {
        None => Err(EntryError::NoValidBump),
        Some((address, _bump)) => match l.entry_at(address) {
            None => Err(EntryError::NotFound),
            Some(sv) => Ok(sv),
        },
    }
}

/// The record a read of `(title, owner)` returns.
pub open spec fn read_outcome(l: Ledger, title: Seq<char>, owner: Seq<u8>) -> Result<
    RecordView,
    EntryError,
> {
    match slot_view_outcome(l, title, owner) {
        Ok(sv) => Ok(sv.record),
        Err(e) => Err(e),
    }
}

// ---------------------------------------------------------------------------
// Effects: how a successful operation changes the state
// ---------------------------------------------------------------------------
/// Every slot except the one at address `a` is unchanged.
pub open spec fn entries_unchanged_except(pre: Ledger, post: Ledger, a: Seq<u8>) -> bool {
    forall|x: Seq<u8>| x != a ==> #[trigger] post.entry_at(x) == pre.entry_at(x)
}

/// Every balance except that of identity `id` is unchanged.
pub open spec fn balances_unchanged_except(pre: Ledger, post: Ledger, id: Seq<u8>) -> bool {
    forall|x: Seq<u8>| x != id ==> #[trigger] post.balance_of(x) == pre.balance_of(x)
}

/// No balance changed at all.
pub open spec fn balances_unchanged(pre: Ledger, post: Ledger) -> bool {
    forall|x: Seq<u8>| #[trigger] post.balance_of(x) == pre.balance_of(x)
}

/// A successful create allocates the derived slot, writes the record, and
/// charges the owner the storage deposit. Nothing else changes.
pub open spec fn create_effect(
    pre: Ledger,
    post: Ledger,
    title: Seq<char>,
    message: Seq<char>,
    owner: Seq<u8>,
) -> bool {
    match derived_entry(title, owner) {
        None => false,
        Some((address, bump)) => {
            &&& post.entry_at(address) == Some(
                SlotView {
                    record: RecordView { owner, title, message },
                    bump,
                    space: ENTRY_SPACE,
                    deposit: ENTRY_DEPOSIT,
                },
            )
            &&& entries_unchanged_except(pre, post, address)
            &&& post.balance_of(owner) == pre.balance_of(owner) - ENTRY_DEPOSIT
            &&& balances_unchanged_except(pre, post, owner)
        },
    }
}

/// A successful update resizes the slot to the worst-case space again and
/// overwrites the message; owner, title, bump and deposit are untouched,
/// and no balance moves.
pub open spec fn update_effect(
    pre: Ledger,
    post: Ledger,
    title: Seq<char>,
    message: Seq<char>,
    owner: Seq<u8>,
) -> bool {
    match derived_entry(title, owner) {
        None => false,
        Some((address, _bump)) => match pre.entry_at(address) {
            None => false,
            Some(sv) => {
                &&& post.entry_at(address) == Some(
                    SlotView {
                        record: RecordView {
                            owner: sv.record.owner,
                            title: sv.record.title,
                            message,
                        },
                        bump: sv.bump,
                        space: ENTRY_SPACE,
                        deposit: sv.deposit,
                    },
                )
                &&& entries_unchanged_except(pre, post, address)
                &&& balances_unchanged(pre, post)
            },
        },
    }
}

/// A successful delete deallocates the slot and refunds its whole deposit
/// to the stored owner's general balance. Nothing else changes.
pub open spec fn delete_effect(pre: Ledger, post: Ledger, title: Seq<char>, owner: Seq<u8>) -> bool {
    match derived_entry(title, owner) {
        None => false,
        Some((address, _bump)) => match pre.entry_at(address) {
            None => false,
            Some(sv) => {
                &&& post.entry_at(address) is None
                &&& entries_unchanged_except(pre, post, address)
                &&& post.balance_of(sv.record.owner) == sat_add(
                    pre.balance_of(sv.record.owner),
                    sv.deposit,
                )
                &&& balances_unchanged_except(pre, post, sv.record.owner)
            },
        },
    }
}

// ---------------------------------------------------------------------------
// Executable operations
// ---------------------------------------------------------------------------
impl Ledger {
    /// An empty ledger: no slot is occupied and no identity holds funds.
    pub fn new() -> (r: Ledger)
        ensures
            r.wf(),
            forall|a: Seq<u8>| #[trigger] r.entry_at(a) is None,
            forall|id: Seq<u8>| #[trigger] r.balance_of(id) == 0,
    {
        let r = Ledger { slots: Vec::new(), balances: Vec::new() };
        proof {
            assert forall|a: Seq<u8>| #[trigger] r.entry_at(a) is None by {
                if seq_has_entry(r.slots@, a) {
                    let i = seq_entry_index(r.slots@, a);
                    assert(slot_match(r.slots@, a, i));
                }
            }
            assert forall|id: Seq<u8>| #[trigger] r.balance_of(id) == 0 by {
                if seq_has_balance(r.balances@, id) {
                    let i = choose|i: int| bal_match(r.balances@, id, i);
                    assert(bal_match(r.balances@, id, i));
                }
            }
        }
        r
    }

    /// The index of the slot at `address`, when one is occupied.
    fn find_slot(&self, address: &Pubkey) -> (r: Option<usize>)
        requires
            slot_addrs_unique(self.slots@),
        ensures
            match r {
                Some(i) => {
                    &&& slot_match(self.slots@, address@, i as int)
                    &&& self.entry_at(address@) == Some(self.slots@[i as int]@)
                },
                None => self.entry_at(address@) is None,
            },
    {
        let n = self.slots.len();
        for i in 0..n
            invariant
                n == self.slots@.len(),
                slot_addrs_unique(self.slots@),
                forall|j: int| 0 <= j < i ==> !slot_match(self.slots@, address@, j),
        {
            if self.slots[i].address.key_eq(address) {
                proof {
                    assert(slot_match(self.slots@, address@, i as int));
                    let k = seq_entry_index(self.slots@, address@);
                    assert(slot_match(self.slots@, address@, k));
                    lemma_slot_match_unique(self.slots@, address@, k, i as int);
                }
                return Some(i);
            }
        }
        proof {
            if seq_has_entry(self.slots@, address@) {
                let k = seq_entry_index(self.slots@, address@);
                assert(slot_match(self.slots@, address@, k));
            }
        }
        None
    }

    /// The index of `id`'s balance entry, when one exists.
    fn balance_index(&self, id: &Pubkey) -> (r: Option<usize>)
        requires
            bal_ids_unique(self.balances@),
        ensures
            match r {
                Some(i) => {
                    &&& bal_match(self.balances@, id@, i as int)
                    &&& self.balance_of(id@) == self.balances@[i as int].lamports
                },
                None => !seq_has_balance(self.balances@, id@) && self.balance_of(id@) == 0,
            },
    {
        let n = self.balances.len();
        for i in 0..n
            invariant
                n == self.balances@.len(),
                bal_ids_unique(self.balances@),
                forall|j: int| 0 <= j < i ==> !bal_match(self.balances@, id@, j),
        {
            if self.balances[i].id.key_eq(id) {
                proof {
                    assert(bal_match(self.balances@, id@, i as int));
                    let k = choose|k: int| bal_match(self.balances@, id@, k);
                    assert(bal_match(self.balances@, id@, k));
                    lemma_bal_match_unique(self.balances@, id@, k, i as int);
                }
                return Some(i);
            }
        }
        proof {
            if seq_has_balance(self.balances@, id@) {
                let k = choose|k: int| bal_match(self.balances@, id@, k);
                assert(bal_match(self.balances@, id@, k));
            }
        }
        None
    }

    /// Rewrites the lamports of the balance entry at index `i`.
    fn set_balance(&mut self, i: usize, amount: u64)
        requires
            i < old(self).balances@.len(),
        ensures
            final(self).slots == old(self).slots,
            final(self).balances@ == old(self).balances@.update(
                i as int,
                BalanceEntry { id: old(self).balances@[i as int].id, lamports: amount },
            ),
    {
        let entry = self.balances.remove(i);
        self.balances.insert(i, BalanceEntry { id: entry.id, lamports: amount });
        proof {
            assert(self.balances@ =~= old(self).balances@.update(
                i as int,
                BalanceEntry { id: old(self).balances@[i as int].id, lamports: amount },
            ));
        }
    }

    /// Adds `amount` to `id`'s general balance, stopping at the largest
    /// representable balance.
    fn credit(&mut self, id: Pubkey, amount: u64)
        requires
            bal_ids_unique(old(self).balances@),
            forall|i: int|
                0 <= i < old(self).balances@.len() ==> (#[trigger] old(self).balances@[i]).id.wf(),
            id.wf(),
        ensures
            final(self).slots == old(self).slots,
            bal_ids_unique(final(self).balances@),
            forall|i: int|
                0 <= i < final(self).balances@.len() ==> (
                #[trigger] final(self).balances@[i]).id.wf(),
            final(self).balance_of(id@) == sat_add(old(self).balance_of(id@), amount),
            balances_unchanged_except(*old(self), *final(self), id@),
    {
        match self.balance_index(&id) {
            Some(i) => {
                let current = self.balances[i].lamports;
                let updated = if current <= u64::MAX - amount {
                    current + amount
                } else {
                    u64::MAX
                };
                let ghost pre = self.balances@;
                self.set_balance(i, updated);
                proof {
                    lemma_balance_update(pre, self.balances@, i as int, updated);
                }
            },
            None => {
                let ghost pre = self.balances@;
                let entry = BalanceEntry { id, lamports: amount };
                let ghost gentry = entry;
                self.balances.push(entry);
                proof {
                    if seq_has_balance(pre, gentry.id@) {
                        let k = choose|k: int| bal_match(pre, gentry.id@, k);
                        assert(bal_match(pre, gentry.id@, k));
                    }
                    lemma_balance_push(pre, self.balances@, gentry);
                }
            },
        }
    }

    /// Credits `amount` of lamports to `id`'s general balance. This models
    /// funds arriving from outside the store, so that an identity can pay
    /// storage deposits.
    pub fn fund(&mut self, id: Pubkey, amount: u64)
        requires
            old(self).wf(),
            id.wf(),
        ensures
            final(self).wf(),
            final(self).slots == old(self).slots,
            final(self).balance_of(id@) == sat_add(old(self).balance_of(id@), amount),
            balances_unchanged_except(*old(self), *final(self), id@),
    {
        self.credit(id, amount);
    }

    /// The lamports currently held by `id`.
    pub fn balance(&self, id: &Pubkey) -> (r: u64)
        requires
            self.wf(),
        ensures
            r == self.balance_of(id@),
    {
        match self.balance_index(id) {
            Some(i) => self.balances[i].lamports,
            None => 0,
        }
    }

    /// Creates the record of `(title, ctx.owner)` at its derived address.
    ///
    /// Fails with `InvalidSignature` when the host verified no signature
    /// for the owner, `FieldTooLong` when a field exceeds its maximum,
    /// `NoValidBump` when derivation finds no address, `AlreadyExists`
    /// when the slot is occupied, and `InsufficientFunds` when the owner
    /// cannot cover the storage deposit. A failed create changes nothing.
    pub fn create_journal_entry(&mut self, ctx: CreateEntry, title: String, message: String) -> (r:
        Result<(), EntryError>)
        requires
            old(self).wf(),
            ctx.wf(),
        ensures
            final(self).wf(),
            r == create_outcome(*old(self), title@, message@, ctx.owner@, ctx.signature_valid),
            r is Ok ==> create_effect(*old(self), *final(self), title@, message@, ctx.owner@),
            r is Err ==> *final(self) == *old(self),
    {
        if !ctx.signature_valid {
            return Err(EntryError::InvalidSignature);
        }
        if field_len(&title) > MAX_TITLE_LEN || field_len(&message) > MAX_MESSAGE_LEN {
            return Err(EntryError::FieldTooLong);
        }
        let (address, bump) = match crate::address::derive_address(&title, &ctx.owner) {
            Ok(found) => found,
            Err(e) => {
                return Err(e);
            },
        };
        if self.find_slot(&address).is_some() {
            return Err(EntryError::AlreadyExists);
        }
        let payer = match self.balance_index(&ctx.owner) {
            Some(i) => i,
            None => {
                return Err(EntryError::InsufficientFunds);
            },
        };
        let held = self.balances[payer].lamports;
        if held < ENTRY_DEPOSIT {
            return Err(EntryError::InsufficientFunds);
        }
        let ghost pre_balances = self.balances@;
        self.set_balance(payer, held - ENTRY_DEPOSIT);
        proof {
            lemma_balance_update(pre_balances, self.balances@, payer as int, (held
                - ENTRY_DEPOSIT) as u64);
        }
        let ghost pre_slots = self.slots@;
        let slot = Slot {
            record: JournalEntryState { owner: ctx.owner, title, message },
            address,
            bump,
            space: ENTRY_SPACE,
            deposit: ENTRY_DEPOSIT,
        };
        let ghost gslot = slot;
        self.slots.push(slot);
        proof {
            lemma_entry_push(pre_slots, self.slots@, gslot);
        }
        Ok(())
    }

    /// Overwrites the message of the record of `(title, ctx.owner)` and
    /// resizes its slot to the worst-case space again. The title is address
    /// material only: it is never rewritten. The owner and the deposit are
    /// untouched.
    ///
    /// Fails with `InvalidSignature` when the host verified no signature,
    /// `FieldTooLong` when a field exceeds its maximum, `NoValidBump` when
    /// derivation finds no address, `NotFound` when the slot is empty, and
    /// `Unauthorized` when the signer is not the stored owner. A failed
    /// update changes nothing.
    pub fn update_journal_entry(&mut self, ctx: UpdateEntry, title: String, message: String) -> (r:
        Result<(), EntryError>)
        requires
            old(self).wf(),
            ctx.wf(),
        ensures
            final(self).wf(),
            r == update_outcome(
                *old(self),
                title@,
                message@,
                ctx.owner@,
                ctx.signer@,
                ctx.signature_valid,
            ),
            r is Ok ==> update_effect(*old(self), *final(self), title@, message@, ctx.owner@),
            r is Err ==> *final(self) == *old(self),
    {
        if !ctx.signature_valid {
            return Err(EntryError::InvalidSignature);
        }
        if field_len(&title) > MAX_TITLE_LEN || field_len(&message) > MAX_MESSAGE_LEN {
            return Err(EntryError::FieldTooLong);
        }
        let (address, _bump) = match crate::address::derive_address(&title, &ctx.owner) {
            Ok(found) => found,
            Err(e) => {
                return Err(e);
            },
        };
        let i = match self.find_slot(&address) {
            Some(i) => i,
            None => {
                return Err(EntryError::NotFound);
            },
        };
        if !ctx.signer.key_eq(&self.slots[i].record.owner) {
            return Err(EntryError::Unauthorized);
        }
        let ghost pre_slots = self.slots@;
        let occupied = self.slots.remove(i);
        let updated = Slot {
            record: JournalEntryState {
                owner: occupied.record.owner,
                title: occupied.record.title,
                message,
            },
            address: occupied.address,
            bump: occupied.bump,
            space: ENTRY_SPACE,
            deposit: occupied.deposit,
        };
        let ghost gupdated = updated;
        self.slots.insert(i, updated);
        proof {
            assert(self.slots@ =~= pre_slots.update(i as int, gupdated));
            lemma_entry_update(pre_slots, self.slots@, i as int, gupdated);
        }
        Ok(())
    }

    /// Deletes the record of `(title, ctx.owner)`: deallocates its slot and
    /// refunds the whole storage deposit to the stored owner's general
    /// balance.
    ///
    /// Fails with `InvalidSignature` when the host verified no signature,
    /// `FieldTooLong` when the title exceeds its maximum, `NoValidBump`
    /// when derivation finds no address, `NotFound` when the slot is empty,
    /// and `Unauthorized` when the signer is not the stored owner. A failed
    /// delete changes nothing.
    pub fn delete_journal_entry(&mut self, ctx: DeleteEntry, title: String) -> (r: Result<
        (),
        EntryError,
    >)
        requires
            old(self).wf(),
            ctx.wf(),
        ensures
            final(self).wf(),
            r == delete_outcome(*old(self), title@, ctx.owner@, ctx.signer@, ctx.signature_valid),
            r is Ok ==> delete_effect(*old(self), *final(self), title@, ctx.owner@),
            r is Err ==> *final(self) == *old(self),
    {
        if !ctx.signature_valid {
            return Err(EntryError::InvalidSignature);
        }
        if field_len(&title) > MAX_TITLE_LEN {
            return Err(EntryError::FieldTooLong);
        }
        let (address, _bump) = match crate::address::derive_address(&title, &ctx.owner) {
            Ok(found) => found,
            Err(e) => {
                return Err(e);
            },
        };
        let i = match self.find_slot(&address) {
            Some(i) => i,
            None => {
                return Err(EntryError::NotFound);
            },
        };
        if !ctx.signer.key_eq(&self.slots[i].record.owner) {
            return Err(EntryError::Unauthorized);
        }
        let ghost pre_slots = self.slots@;
        let removed = self.slots.remove(i);
        proof {
            lemma_entry_remove(pre_slots, self.slots@, i as int);
        }
        self.credit(removed.record.owner, removed.deposit);
        Ok(())
    }

    /// Reads back the record of `(title, owner)`.
    ///
    /// Fails with `NoValidBump` when derivation finds no address and
    /// `NotFound` when the slot is empty.
    pub fn read_journal_entry(&self, title: &String, owner: &Pubkey) -> (r: Result<
        JournalEntryState,
        EntryError,
    >)
        requires
            self.wf(),
            owner.wf(),
            text_len(title@) <= MAX_TITLE_LEN,
        ensures
            match r {
                Ok(record) => read_outcome(*self, title@, owner@) == Ok::<RecordView, EntryError>(
                    record@,
                ) && record.wf(),
                Err(e) => read_outcome(*self, title@, owner@) == Err::<RecordView, EntryError>(e),
            },
    {
        let (address, _bump) = match crate::address::derive_address(title, owner) {
            Ok(found) => found,
            Err(e) => {
                return Err(e);
            },
        };
        match self.find_slot(&address) {
            Some(i) => Ok(self.slots[i].record.snapshot()),
            None => Err(EntryError::NotFound),
        }
    }

    /// The bytes currently allocated for the record of `(title, owner)`.
    ///
    /// Fails exactly as a read does.
    pub fn entry_space(&self, title: &String, owner: &Pubkey) -> (r: Result<u64, EntryError>)
        requires
            self.wf(),
            owner.wf(),
            text_len(title@) <= MAX_TITLE_LEN,
        ensures
            match r {
                Ok(space) => slot_view_outcome(*self, title@, owner@) matches Ok(sv) && space
                    == sv.space,
                Err(e) => slot_view_outcome(*self, title@, owner@) == Err::<SlotView, _>(e),
            },
    {
        let (address, _bump) = match crate::address::derive_address(title, owner) {
            Ok(found) => found,
            Err(e) => {
                return Err(e);
            },
        };
        match self.find_slot(&address) {
            Some(i) => Ok(self.slots[i].space),
            None => Err(EntryError::NotFound),
        }
    }
}

} // verus!
