use vstd::prelude::*;
use vstd::slice::slice_to_vec;

verus! {

/// Number of bytes in a key: both owning identities and derived storage
/// addresses are 32-byte values in the host's address space.
pub const KEY_BYTES: usize = 32;

/// A 32-byte key of the ledger host's address space. A `Pubkey` is either
/// an owning identity (a public-key-equivalent value a signer can hold a
/// credential for) or a derived storage address (guaranteed by derivation
/// to lie outside the valid-identity space).
#[derive(Clone, Debug, PartialEq, Eq)]
pub struct Pubkey {
    pub bytes: Vec<u8>,
}

impl View for Pubkey {
    type V = Seq<u8>;

    open spec fn view(&self) -> Seq<u8> {
        self.bytes@
    }
}

impl Pubkey {
    /// A well-formed key holds exactly 32 bytes.
    pub open spec fn wf(&self) -> bool {
        self@.len() == KEY_BYTES
    }

    pub fn new(bytes: Vec<u8>) -> (r: Pubkey)
        requires
            bytes@.len() == KEY_BYTES,
        ensures
            r.wf(),
            r@ == bytes@,
    {
        Pubkey { bytes }
    }

    /// An independent copy of the key with the same bytes.
    pub fn duplicate(&self) -> (r: Pubkey)
        ensures
            r@ == self@,
            self.wf() ==> r.wf(),
    {
        Pubkey { bytes: slice_to_vec(self.bytes.as_slice()) }
    }

    /// Keys are equal exactly when their bytes are equal.
    pub fn key_eq(&self, other: &Pubkey) -> (r: bool)
        ensures
            r == (self@ == other@),
    {
        let r = self.bytes == other.bytes;
        proof {
            if r {
                assert(self@ =~= other@);
            } else {
                if self@ == other@ {
                    assert(forall|i: int|
                        0 <= i < self.bytes@.len() ==> self.bytes@[i] == other.bytes@[i]);
                }
            }
        }
        r
    }
}

} // verus!
