use vstd::prelude::*;
use vstd::slice::{slice_subrange, slice_to_vec};
use vstd::string::StrSliceExecFns;
use vstd::utf8::encode_utf8;

use crate::errors::EntryError;
use crate::keys::{Pubkey, KEY_BYTES};
use crate::schema::{text_len, MAX_TITLE_LEN};

verus! {

/// The program's identifier: the fixed key under which the host namespaces
/// every address this store derives.
pub open spec fn program_id_bytes() -> Seq<u8> {
    seq![
        128u8, 152, 255, 17, 58, 56, 81, 255, 201, 182, 27, 0, 249, 87, 254, 247,
        88, 106, 190, 118, 80, 246, 152, 30, 179, 20, 170, 88, 83, 158, 181, 9,
    ]
}

/// The program identifier as a byte vector.
pub fn program_id() -> (r: Vec<u8>)
    ensures
        r@ == program_id_bytes(),
        r@.len() == KEY_BYTES,
{
    let r: Vec<u8> = vec![
        128u8, 152, 255, 17, 58, 56, 81, 255, 201, 182, 27, 0, 249, 87, 254, 247,
        88, 106, 190, 118, 80, 246, 152, 30, 179, 20, 170, 88, 83, 158, 181, 9,
    ];
    proof {
        assert(r@ =~= program_id_bytes());
    }
    r
}

/// The host hashes at most 32 bytes per seed, and it hashes a seed list by
/// concatenating the seeds; a byte string longer than one seed allows is
/// therefore passed as consecutive chunks of at most this many bytes, which
/// hash identically to the unsplit string.
pub const SEED_CHUNK: usize = 32;

/// The chunks a byte string is split into before it is handed to the host
/// as seeds: maximal runs of `SEED_CHUNK` bytes, in order.
pub open spec fn seed_chunks_spec(bytes: Seq<u8>) -> Seq<Seq<u8>>
    decreases bytes.len(),
{
    if bytes.len() <= SEED_CHUNK {
        seq![bytes]
    } else {
        seq![bytes.take(SEED_CHUNK as int)] + seed_chunks_spec(bytes.skip(SEED_CHUNK as int))
    }
}

/// Splits a byte string of at most two chunks' worth into its seed chunks.
fn seed_chunks(bytes: &Vec<u8>) -> (r: Vec<Vec<u8>>)
    requires
        bytes@.len() <= 2 * SEED_CHUNK,
    ensures
        r.deep_view() == seed_chunks_spec(bytes@),
{
    let mut r: Vec<Vec<u8>> = Vec::new();
    if bytes.len() <= SEED_CHUNK {
        r.push(slice_to_vec(bytes.as_slice()));
        proof {
            assert(r.deep_view() =~~= seed_chunks_spec(bytes@));
        }
    } else {
        let first = slice_to_vec(slice_subrange(bytes.as_slice(), 0, SEED_CHUNK));
        let rest = slice_to_vec(slice_subrange(bytes.as_slice(), SEED_CHUNK, bytes.len()));
        r.push(first);
        r.push(rest);
        proof {
            assert(bytes@.skip(SEED_CHUNK as int).len() <= SEED_CHUNK);
            assert(seed_chunks_spec(bytes@.skip(SEED_CHUNK as int)) == seq![
                bytes@.skip(SEED_CHUNK as int),
            ]);
            assert(r.deep_view() =~~= seed_chunks_spec(bytes@));
        }
    }
    r
}

/// What the host's program-derived-address search returns for a seed list
/// and a program identifier: `None` when no bump seed in the search range
/// yields an address off the valid-identity curve, otherwise the found
/// 32-byte address and the bump seed that produced it. The search is a
/// deterministic function of its two arguments.
pub uninterp spec fn find_program_address_of(seeds: Seq<Seq<u8>>, program_id: Seq<u8>) -> Option<
    (Seq<u8>, u8),
>;

/// Relies on `Pubkey::try_find_program_address` of anchor_lang's re-exported
/// address type: the bump search is deterministic in the seed list and the
/// program id, it never panics, and a found address is exactly 32 bytes.
#[verifier::external_body]
fn host_find_program_address(seeds: &Vec<Vec<u8>>, program_id: &Vec<u8>) -> (r: Option<
    (Vec<u8>, u8),
>)
    requires
        program_id@.len() == KEY_BYTES,
    ensures
        match r {
            Some((address, bump)) => {
                &&& find_program_address_of(seeds.deep_view(), program_id@) == Some((
                    address@,
                    bump,
                ))
                &&& address@.len() == KEY_BYTES
            },
            None => find_program_address_of(seeds.deep_view(), program_id@) is None,
        },
{
    let refs: Vec<&[u8]> = seeds.iter().map(|s| s.as_slice()).collect();
    let id_bytes: [u8; 32] = program_id.as_slice().try_into().unwrap();
    let id = anchor_lang::prelude::Pubkey::new_from_array(id_bytes);
    anchor_lang::prelude::Pubkey::try_find_program_address(&refs, &id)
        .map(|(address, bump)| (address.to_bytes().to_vec(), bump))
}

/// The seed list a record's address is derived from: the chunks of the
/// title's encoding, followed by the owner key.
pub open spec fn entry_seeds(title: Seq<char>, owner: Seq<u8>) -> Seq<Seq<u8>> {
    seed_chunks_spec(encode_utf8(title)).push(owner)
}

/// The derived slot of a `(title, owner)` pair: the host's search applied
/// to the pair's seed list under this program's identifier. The same pair
/// always maps to the same result.
pub open spec fn derived_entry(title: Seq<char>, owner: Seq<u8>) -> Option<(Seq<u8>, u8)> {
    find_program_address_of(entry_seeds(title, owner), program_id_bytes())
}

/// Derives the storage address and bump seed of the record identified by
/// `title` and `owner`. Fails with `NoValidBump` exactly when the host's
/// search space holds no valid address for the pair.
pub fn derive_address(title: &String, owner: &Pubkey) -> (r: Result<(Pubkey, u8), EntryError>)
    requires
        owner.wf(),
        text_len(title@) <= MAX_TITLE_LEN,
    ensures
        match r {
            Ok((address, bump)) => {
                &&& address.wf()
                &&& derived_entry(title@, owner@) == Some((address@, bump))
            },
            Err(e) => {
                &&& e == EntryError::NoValidBump
                &&& derived_entry(title@, owner@) is None
            },
        },
{
    let bytes = title.as_str().as_bytes_vec();
    let mut seeds = seed_chunks(&bytes);
    let ghost chunks = seeds.deep_view();
    seeds.push(owner.duplicate().bytes);
    proof {
        assert(seeds.deep_view() =~~= chunks.push(owner@));
    }
    let id = program_id();
    match host_find_program_address(&seeds, &id) {
        Some((address, bump)) => Ok((Pubkey::new(address), bump)),
        None => Err(EntryError::NoValidBump),
    }
}

} // verus!
