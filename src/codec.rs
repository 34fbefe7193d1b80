//! Byte encodings that the settlement ledger signs and hashes: little-endian
//! integers as the chain's codec writes them, a 32-byte hash made from an
//! integer, and the 256-bit BLAKE2b digest.
use vstd::prelude::*;

verus! {

pub type H256 = [u8; 32];

/// The `n` low bytes of `x`, least significant first.
pub open spec fn le_bytes(x: nat, n: nat) -> Seq<u8>
    decreases n,
{
    if n == 0 {
        Seq::empty()
    } else {
        seq![(x % 256) as u8] + le_bytes(x / 256, (n - 1) as nat)
    }
}

/// Appends the `n` low bytes of `x` to `out`, least significant first.
pub fn push_le_bytes(out: &mut Vec<u8>, x: u128, n: usize)
    ensures
        final(out)@ == old(out)@ + le_bytes(x as nat, n as nat),
{
    let mut cur: u128 = x;
    let mut i: usize = 0;
    while i < n
        invariant
            i <= n,
            out@ + le_bytes(cur as nat, (n - i) as nat) == old(out)@ + le_bytes(x as nat, n as nat),
        decreases n - i,
    {
        let ghost before = out@;
        let ghost c = cur as nat;
        let ghost rest = le_bytes(c / 256, (n - i - 1) as nat);
        assert(le_bytes(c, (n - i) as nat) == seq![(c % 256) as u8] + rest);
        out.push((cur % 256) as u8);
        cur = cur / 256;
        i = i + 1;
        assert(out@ + rest =~= before + (seq![(c % 256) as u8] + rest));
    }
    assert(le_bytes(cur as nat, 0) == Seq::<u8>::empty());
    assert(out@ + Seq::<u8>::empty() == out@);
}

/// `256^j` for the eight byte positions of a `u64`.
pub open spec fn byte_weight(j: int) -> nat {
    if j <= 0 {
        1
    } else if j == 1 {
        0x100
    } else if j == 2 {
        0x1_0000
    } else if j == 3 {
        0x100_0000
    } else if j == 4 {
        0x1_0000_0000
    } else if j == 5 {
        0x100_0000_0000
    } else if j == 6 {
        0x1_0000_0000_0000
    } else {
        0x100_0000_0000_0000
    }
}

/// The hash that a settlement receipt carries for an intent: 24 zero bytes
/// followed by the identifier's 8 bytes, most significant first.
pub open spec fn hash_of_id(id: u64) -> Seq<u8> {
    Seq::new(
        32,
        |i: int|
            if i < 24 {
                0u8
            } else {
                ((id as nat / byte_weight(31 - i)) % 256) as u8
            },
    )
}

pub fn h256_from_id(id: u64) -> (r: H256)
    ensures
        r@ == hash_of_id(id),
{
    let b0 = (id % 256) as u8;
    let b1 = (id / 0x100 % 256) as u8;
    let b2 = (id / 0x1_0000 % 256) as u8;
    let b3 = (id / 0x100_0000 % 256) as u8;
    let b4 = (id / 0x1_0000_0000 % 256) as u8;
    let b5 = (id / 0x100_0000_0000 % 256) as u8;
    let b6 = (id / 0x1_0000_0000_0000 % 256) as u8;
    let b7 = (id / 0x100_0000_0000_0000 % 256) as u8;
    let r: H256 = [
        0, 0, 0, 0, 0, 0, 0, 0, 0, 0, 0, 0, 0, 0, 0, 0, 0, 0, 0, 0, 0, 0, 0, 0,
        b7, b6, b5, b4, b3, b2, b1, b0,
    ];
    assert(r@ =~= hash_of_id(id));
    r
}

/// The 256-bit BLAKE2b digest of a byte string.
pub uninterp spec fn blake2_256_of(data: Seq<u8>) -> Seq<u8>;

/// Relies on sp_crypto_hashing::blake2_256: the 32-byte BLAKE2b digest of the
/// input, which depends on the input alone.
#[verifier::external_body]
pub(crate) fn blake2_256(data: &Vec<u8>) -> (r: H256)
    ensures
        r@ == blake2_256_of(data@),
{
    sp_crypto_hashing::blake2_256(data.as_slice())
}

/// Whether two hashes hold the same bytes.
pub fn h256_eq(a: &H256, b: &H256) -> (r: bool)
    ensures
        r == (a@ == b@),
{
    let mut i: usize = 0;
    while i < 32
        invariant
            i <= 32,
            a@.len() == 32,
            b@.len() == 32,
            forall|j: int| 0 <= j < i ==> a@[j] == b@[j],
        decreases 32 - i,
    {
        if a[i] != b[i] {
            return false;
        }
        i = i + 1;
    }
    assert(a@ =~= b@);
    true
}

} // verus!
