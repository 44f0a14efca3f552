//! Hashes that identify code by its content.

use vstd::prelude::*;

use crate::compiler::table::Key;

verus! {

broadcast use vstd::array::group_array_axioms;

/// The digest that `udigest` computes with BLAKE3, of a byte string
pub uninterp spec fn blake3_digest(bytes: Seq<u8>) -> Seq<u8>;

/// The BLAKE3 digest of a byte string, as `udigest` encodes it
///
/// Calls `udigest::hash::<blake3::Hasher>` on the bytes, wrapped as
/// `udigest::Bytes`. Trusted: the contract claims that the 32-byte result is a
/// function of the bytes alone, named `blake3_digest`.
#[verifier::external_body]
fn digest(bytes: &[u8]) -> (result: [u8; 32])
    ensures
        result@ == blake3_digest(bytes@),
{
    udigest::hash::<blake3::Hasher>(&udigest::Bytes(bytes)).into()
}

/// # A hash that identifies a value by its content
#[derive(Clone, Copy, Debug, PartialEq, Eq)]
pub struct Hash {
    hash: [u8; 32],
}

impl Hash {
    /// The bytes of the hash
    pub closed spec fn bytes(&self) -> Seq<u8> {
        self.hash@
    }

    /// # The hash of a value, given the bytes that encode it
    pub fn new(encoding: &[u8]) -> (result: Self)
        ensures
            result.bytes() == blake3_digest(encoding@),
    {
        Hash { hash: digest(encoding) }
    }

    /// # Whether two hashes are the same
    pub fn same(&self, other: &Hash) -> (result: bool)
        ensures
            result == (self.bytes() == other.bytes()),
    {
        let result = self.same_key(other);
        proof {
            if self.bytes() == other.bytes() {
                assert(self.hash =~= other.hash);
            }
        }
        result
    }

    /// # The bytes of the hash
    pub fn to_bytes(&self) -> (result: [u8; 32])
        ensures
            result@ == self.bytes(),
    {
        self.hash
    }
}

impl Key for Hash {
    fn same_key(&self, other: &Self) -> (result: bool) {
        let mut i: usize = 0;
        while i < 32
            invariant
                i <= 32,
                forall|j: int| 0 <= j < i ==> self.hash@[j] == other.hash@[j],
            decreases 32 - i,
        {
            if self.hash[i] != other.hash[i] {
                return false;
            }
            i = i + 1;
        }
        assert(self.hash =~= other.hash);
        true
    }

    fn copy_key(&self) -> (result: Self) {
        *self
    }
}

} // verus!
