//! Byte-level helpers: the 32-byte balance leaf encoding and small
//! verified routines over byte vectors that the rest of the crate shares.
use vstd::prelude::*;
use vstd::bytes::{spec_u64_from_le_bytes, spec_u64_to_le_bytes, u64_from_le_bytes, u64_to_le_bytes};

verus! {

/// The 32-byte Merkle leaf that stores a balance: 24 zero bytes followed
/// by the 64-bit little-endian encoding of the balance.
pub open spec fn spec_leaf(balance: u64) -> Seq<u8> {
    Seq::new(24, |i: int| 0u8) + spec_u64_to_le_bytes(balance)
}

/// The balance a 32-byte leaf holds: bytes [24..32) read little-endian.
pub open spec fn spec_leaf_value(leaf: Seq<u8>) -> u64 {
    spec_u64_from_le_bytes(leaf.subrange(24, 32))
}

/// Encoding a balance and reading it back is the identity, and the
/// encoding is injective.
pub proof fn lemma_leaf_roundtrip(balance: u64)
    ensures
        spec_leaf(balance).len() == 32,
        spec_leaf_value(spec_leaf(balance)) == balance,
{
    vstd::bytes::lemma_auto_spec_u64_to_from_le_bytes();
    assert(spec_leaf(balance).subrange(24, 32) =~= spec_u64_to_le_bytes(balance));
}

/// Reads the balance out of a 32-byte leaf.
pub fn leaf_to_num(leaf: &[u8]) -> (n: u64)
    requires
        leaf@.len() == 32,
    ensures
        n == spec_leaf_value(leaf@),
{
    let tail = vstd::slice::slice_subrange(leaf, 24, 32);
    u64_from_le_bytes(tail)
}

/// Builds the 32-byte leaf for a balance.
pub fn num_to_leaf(balance: u64) -> (leaf: Vec<u8>)
    ensures
        leaf@ == spec_leaf(balance),
        leaf@.len() == 32,
{
    let mut leaf: Vec<u8> = Vec::new();
    let mut i: usize = 0;
    while i < 24
        invariant
            i <= 24,
            leaf@ =~= Seq::new(i as nat, |j: int| 0u8),
        decreases 24 - i,
    {
        leaf.push(0u8);
        i += 1;
    }
    let tail = u64_to_le_bytes(balance);
    append_bytes(&mut leaf, tail.as_slice());
    proof {
        lemma_leaf_roundtrip(balance);
        assert(leaf@ =~= spec_leaf(balance));
    }
    leaf
}

/// Appends all of `src` to `dst`.
pub(crate) fn append_bytes(dst: &mut Vec<u8>, src: &[u8])
    ensures
        final(dst)@ == old(dst)@ + src@,
{
    let mut i: usize = 0;
    while i < src.len()
        invariant
            i <= src@.len(),
            dst@ =~= old(dst)@ + src@.subrange(0, i as int),
        decreases src@.len() - i,
    {
        dst.push(src[i]);
        i += 1;
    }
    proof {
        assert(dst@ =~= old(dst)@ + src@);
    }
}

/// Byte-for-byte equality of two slices.
pub(crate) fn bytes_eq(a: &[u8], b: &[u8]) -> (r: bool)
    ensures
        r == (a@ == b@),
{
    if a.len() != b.len() {
        proof {
            assert(a@ != b@);
        }
        return false;
    }
    let mut i: usize = 0;
    while i < a.len()
        invariant
            i <= a@.len(),
            a@.len() == b@.len(),
            forall|j: int| 0 <= j < i ==> a@[j] == b@[j],
        decreases a@.len() - i,
    {
        if a[i] != b[i] {
            proof {
                assert(a@ != b@);
            }
            return false;
        }
        i += 1;
    }
    proof {
        assert(a@ =~= b@);
    }
    true
}

} // verus!
