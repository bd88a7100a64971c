//! Identities: the 32-byte keys under which the ledger keeps its records.

use solana_program::program_memory::sol_memcmp;
use vstd::prelude::*;

verus! {

/// The number of bytes in a key.
pub const PUBKEY_BYTES: usize = 32;

/// The key of a record, of a bettor, of an arbiter or of the service itself.
/// The bytes have no meaning here: two keys are the same identity exactly
/// when they agree byte for byte.
#[derive(Clone, Copy, Debug, PartialEq, Eq)]
pub struct Pubkey(pub [u8; 32]);

impl View for Pubkey {
    type V = Seq<u8>;

    open spec fn view(&self) -> Seq<u8> {
        self.0@
    }
}

impl Default for Pubkey {
    /// The key of 32 zero bytes.
    fn default() -> (key: Self)
        ensures
            key@ == Seq::new(32, |i: int| 0u8),
    {
        let key = Pubkey([0u8; 32]);
        key
    }
}

impl Pubkey {
    /// The key made of the given bytes.
    pub fn new_from_array(bytes: [u8; 32]) -> (key: Self)
        ensures
            key@ == bytes@,
    {
        Pubkey(bytes)
    }

    /// The bytes of the key.
    pub fn to_bytes(&self) -> (bytes: [u8; 32])
        ensures
            bytes@ == self@,
    {
        self.0
    }
}

/// `solana_program::program_memory::sol_memcmp` compares the first `n` bytes
/// of two slices as C's `memcmp` does. It reads `n` bytes from each slice
/// without looking at their lengths, so both must hold that many. The result
/// is zero when the two runs agree; otherwise its sign is that of the
/// difference of the first pair of bytes that differ.
pub assume_specification[ solana_program::program_memory::sol_memcmp ](
    s1: &[u8],
    s2: &[u8],
    n: usize,
) -> (order: i32)
    requires
        n <= s1@.len(),
        n <= s2@.len(),
    ensures
        order == 0 <==> (forall|i: int| 0 <= i < n ==> s1@[i] == s2@[i]),
        order < 0 <==> (exists|i: int|
            0 <= i < n && s1@[i] < s2@[i] && (forall|j: int| 0 <= j < i ==> s1@[j] == s2@[j])),
;

/// Whether two keys are the same identity.
pub fn cmp_pubkeys(a: &Pubkey, b: &Pubkey) -> (same: bool)
    ensures
        same == (a@ == b@),
{
    let order: i32 = sol_memcmp(a.0.as_slice(), b.0.as_slice(), PUBKEY_BYTES);
    assert(order == 0 ==> a@ =~= b@);
    order == 0
}

} // verus!
