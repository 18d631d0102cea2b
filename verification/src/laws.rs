use vstd::prelude::*;
use vstd::seq_lib::lemma_flatten_concat;
use vstd::utf8::{decode_utf8, encode_utf8, encode_utf8_decode_utf8};

use crate::address::{derived_entry, entry_seeds, seed_chunks_spec, SEED_CHUNK};
use crate::errors::EntryError;
use crate::ledger::{
    create_effect, create_outcome, delete_effect, delete_outcome, read_outcome,
    slot_view_outcome, update_effect, update_outcome, Ledger,
};
use crate::schema::{text_len, RecordView, ENTRY_DEPOSIT, ENTRY_SPACE, MAX_MESSAGE_LEN,
    MAX_TITLE_LEN};

verus! {

// ---------------------------------------------------------------------------
// Determinism of address derivation
// ---------------------------------------------------------------------------
/// Deriving twice from the same title and owner always yields the same
/// address and bump: the derived slot is a pure function of the pair.
pub proof fn lemma_derive_deterministic(
    title1: Seq<char>,
    owner1: Seq<u8>,
    title2: Seq<char>,
    owner2: Seq<u8>,
)
    requires
        title1 == title2,
        owner1 == owner2,
    ensures
        derived_entry(title1, owner1) == derived_entry(title2, owner2),
{
}

// ---------------------------------------------------------------------------
// Disjointness of derivation inputs
// ---------------------------------------------------------------------------
/// The seed chunks of a byte string concatenate back to the string.
proof fn lemma_seed_chunks_concat(bytes: Seq<u8>)
    ensures
        seed_chunks_spec(bytes).flatten() == bytes,
    decreases bytes.len(),
{
    if bytes.len() <= SEED_CHUNK {
        seq![bytes].lemma_flatten_one_element();
    } else {
        let head = seq![bytes.take(SEED_CHUNK as int)];
        let tail = seed_chunks_spec(bytes.skip(SEED_CHUNK as int));
        lemma_seed_chunks_concat(bytes.skip(SEED_CHUNK as int));
        lemma_flatten_concat(head, tail);
        head.lemma_flatten_one_element();
        assert(bytes.take(SEED_CHUNK as int) + bytes.skip(SEED_CHUNK as int) =~= bytes);
    }
}

/// The seed list injectively encodes the `(title, owner)` pair: equal seed
/// lists can only come from an equal title and an equal owner. Distinct
/// pairs therefore hand the host distinct derivation inputs; that the host
/// maps distinct inputs to distinct addresses is its hash's collision
/// resistance, exercised on concrete values by tests rather than proved.
pub proof fn lemma_entry_seeds_injective(
    title1: Seq<char>,
    owner1: Seq<u8>,
    title2: Seq<char>,
    owner2: Seq<u8>,
)
    requires
        entry_seeds(title1, owner1) == entry_seeds(title2, owner2),
    ensures
        title1 == title2,
        owner1 == owner2,
{
    let s1 = seed_chunks_spec(encode_utf8(title1));
    let s2 = seed_chunks_spec(encode_utf8(title2));
    assert(s1.push(owner1).last() == owner1);
    assert(s2.push(owner2).last() == owner2);
    assert(s1.push(owner1).drop_last() =~= s1);
    assert(s2.push(owner2).drop_last() =~= s2);
    assert(s1 == s2);
    lemma_seed_chunks_concat(encode_utf8(title1));
    lemma_seed_chunks_concat(encode_utf8(title2));
    assert(encode_utf8(title1) == encode_utf8(title2));
    encode_utf8_decode_utf8(title1);
    encode_utf8_decode_utf8(title2);
    assert(decode_utf8(encode_utf8(title1)) == title1);
    assert(decode_utf8(encode_utf8(title2)) == title2);
}

// ---------------------------------------------------------------------------
// Lifecycle exclusivity
// ---------------------------------------------------------------------------
/// After a successful create, creating again under the same title and
/// owner fails with `AlreadyExists`, whatever well-sized message it
/// carries.
pub proof fn lemma_create_exclusive(
    pre: Ledger,
    post: Ledger,
    title: Seq<char>,
    message1: Seq<char>,
    message2: Seq<char>,
    owner: Seq<u8>,
)
    requires
        create_effect(pre, post, title, message1, owner),
        text_len(title) <= MAX_TITLE_LEN,
        text_len(message2) <= MAX_MESSAGE_LEN,
    ensures
        create_outcome(post, title, message2, owner, true) == Err::<(), EntryError>(
            EntryError::AlreadyExists,
        ),
{
}

/// Updating or deleting a record that was never created fails with
/// `NotFound`.
pub proof fn lemma_never_created_not_found(
    l: Ledger,
    title: Seq<char>,
    message: Seq<char>,
    owner: Seq<u8>,
    signer: Seq<u8>,
)
    requires
        text_len(title) <= MAX_TITLE_LEN,
        text_len(message) <= MAX_MESSAGE_LEN,
        derived_entry(title, owner) is Some,
        l.entry_at(derived_entry(title, owner).unwrap().0) is None,
    ensures
        update_outcome(l, title, message, owner, signer, true) == Err::<(), EntryError>(
            EntryError::NotFound,
        ),
        delete_outcome(l, title, owner, signer, true) == Err::<(), EntryError>(
            EntryError::NotFound,
        ),
{
}

// ---------------------------------------------------------------------------
// Authorization
// ---------------------------------------------------------------------------
/// On an occupied slot, a validly signed update succeeds exactly when the
/// signing identity is the stored owner; any other signer is turned away
/// with `Unauthorized`.
pub proof fn lemma_update_authorization(
    l: Ledger,
    title: Seq<char>,
    message: Seq<char>,
    owner: Seq<u8>,
    signer: Seq<u8>,
)
    requires
        text_len(title) <= MAX_TITLE_LEN,
        text_len(message) <= MAX_MESSAGE_LEN,
        derived_entry(title, owner) is Some,
        l.entry_at(derived_entry(title, owner).unwrap().0) is Some,
    ensures
        signer != l.entry_at(derived_entry(title, owner).unwrap().0).unwrap().record.owner
            ==> update_outcome(l, title, message, owner, signer, true) == Err::<(), EntryError>(
            EntryError::Unauthorized,
        ),
        signer == l.entry_at(derived_entry(title, owner).unwrap().0).unwrap().record.owner
            ==> update_outcome(l, title, message, owner, signer, true) == Ok::<(), EntryError>(()),
{
}

/// On an occupied slot, a validly signed delete succeeds exactly when the
/// signing identity is the stored owner; any other signer is turned away
/// with `Unauthorized`.
pub proof fn lemma_delete_authorization(l: Ledger, title: Seq<char>, owner: Seq<u8>, signer: Seq<u8>)
    requires
        text_len(title) <= MAX_TITLE_LEN,
        derived_entry(title, owner) is Some,
        l.entry_at(derived_entry(title, owner).unwrap().0) is Some,
    ensures
        signer != l.entry_at(derived_entry(title, owner).unwrap().0).unwrap().record.owner
            ==> delete_outcome(l, title, owner, signer, true) == Err::<(), EntryError>(
            EntryError::Unauthorized,
        ),
        signer == l.entry_at(derived_entry(title, owner).unwrap().0).unwrap().record.owner
            ==> delete_outcome(l, title, owner, signer, true) == Ok::<(), EntryError>(()),
{
}

// ---------------------------------------------------------------------------
// Field bounds
// ---------------------------------------------------------------------------
/// A validly signed create or update is rejected with `FieldTooLong`
/// exactly when a field exceeds its maximum; fields at or under the
/// maximum never trip the bound.
pub proof fn lemma_field_bounds(
    l: Ledger,
    title: Seq<char>,
    message: Seq<char>,
    owner: Seq<u8>,
    signer: Seq<u8>,
)
    ensures
        text_len(title) > MAX_TITLE_LEN || text_len(message) > MAX_MESSAGE_LEN ==> {
            &&& create_outcome(l, title, message, owner, true) == Err::<(), EntryError>(
                EntryError::FieldTooLong,
            )
            &&& update_outcome(l, title, message, owner, signer, true) == Err::<(), EntryError>(
                EntryError::FieldTooLong,
            )
        },
        text_len(title) <= MAX_TITLE_LEN && text_len(message) <= MAX_MESSAGE_LEN ==> {
            &&& create_outcome(l, title, message, owner, true) != Err::<(), EntryError>(
                EntryError::FieldTooLong,
            )
            &&& update_outcome(l, title, message, owner, signer, true) != Err::<(), EntryError>(
                EntryError::FieldTooLong,
            )
        },
{
}

// ---------------------------------------------------------------------------
// Round trip
// ---------------------------------------------------------------------------
/// Reading back after a successful create yields exactly the owner, title
/// and message that were written.
pub proof fn lemma_create_round_trip(
    pre: Ledger,
    post: Ledger,
    title: Seq<char>,
    message: Seq<char>,
    owner: Seq<u8>,
)
    requires
        create_effect(pre, post, title, message, owner),
    ensures
        read_outcome(post, title, owner) == Ok::<RecordView, EntryError>(
            RecordView { owner, title, message },
        ),
{
}

/// Reading back after a successful update yields the new message under the
/// unchanged owner and title.
pub proof fn lemma_update_round_trip(
    pre: Ledger,
    post: Ledger,
    title: Seq<char>,
    message: Seq<char>,
    owner: Seq<u8>,
)
    requires
        update_effect(pre, post, title, message, owner),
    ensures
        read_outcome(pre, title, owner) is Ok,
        read_outcome(post, title, owner) == Ok::<RecordView, EntryError>(
            RecordView {
                owner: read_outcome(pre, title, owner).unwrap().owner,
                title: read_outcome(pre, title, owner).unwrap().title,
                message,
            },
        ),
{
}

/// A successful delete returns the slot to absent: a create of the same
/// title and owner succeeds again once the owner can pay the deposit.
pub proof fn lemma_delete_then_create(
    pre: Ledger,
    post: Ledger,
    title: Seq<char>,
    message: Seq<char>,
    owner: Seq<u8>,
)
    requires
        delete_effect(pre, post, title, owner),
        text_len(title) <= MAX_TITLE_LEN,
        text_len(message) <= MAX_MESSAGE_LEN,
        post.balance_of(owner) >= ENTRY_DEPOSIT,
    ensures
        create_outcome(post, title, message, owner, true) == Ok::<(), EntryError>(()),
{
}

// ---------------------------------------------------------------------------
// Idempotent resize
// ---------------------------------------------------------------------------
/// Once a slot's allocation has reached the worst-case bound, further
/// updates never change it: every successful update leaves the slot at
/// exactly the worst-case space.
pub proof fn lemma_resize_idempotent(
    pre: Ledger,
    mid: Ledger,
    post: Ledger,
    title: Seq<char>,
    message1: Seq<char>,
    message2: Seq<char>,
    owner: Seq<u8>,
)
    requires
        update_effect(pre, mid, title, message1, owner),
        update_effect(mid, post, title, message2, owner),
    ensures
        slot_view_outcome(mid, title, owner).unwrap().space == ENTRY_SPACE,
        slot_view_outcome(post, title, owner).unwrap().space == slot_view_outcome(
            mid,
            title,
            owner,
        ).unwrap().space,
{
}

} // verus!
