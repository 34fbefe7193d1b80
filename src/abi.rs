//! The few pieces of the EVM contract ABI that the precompiles speak: a call
//! opens with a 4-byte function selector, arguments and results are 32-byte
//! big-endian words.
use vstd::prelude::*;

use crate::codec::{le_bytes, push_le_bytes};

verus! {

/// Length of an ABI word.
pub const WORD_LEN: usize = 32;

/// Length of a function selector.
pub const SELECTOR_LEN: usize = 4;

/// Why a precompile call was rejected.
#[derive(Clone, Copy, Debug, PartialEq, Eq, Structural)]
pub enum PrecompileError {
    /// The input is shorter than a selector.
    InvalidInput,
    /// The selector names no function of the precompile.
    InvalidSelector,
    /// An argument is missing or out of its type's range.
    DecodeFailed,
    /// The call reached the ledger, which refused it.
    CallFailed,
}

pub proof fn lemma_le_bytes_len(x: nat, n: nat)
    ensures
        le_bytes(x, n).len() == n,
    decreases n,
{
    if n > 0 {
        lemma_le_bytes_len(x / 256, (n - 1) as nat);
    }
}

/// The word that encodes the unsigned integer `x`.
pub open spec fn uint_word(x: nat) -> Seq<u8> {
    le_bytes(x, WORD_LEN as nat).reverse()
}

/// The word that encodes a boolean.
pub open spec fn bool_word(b: bool) -> Seq<u8> {
    uint_word(
        if b {
            1
        } else {
            0
        },
    )
}

/// Appends the word of `x` to `out`.
pub fn push_uint_word(out: &mut Vec<u8>, x: u128)
    ensures
        final(out)@ == old(out)@ + uint_word(x as nat),
{
    let mut le: Vec<u8> = Vec::new();
    push_le_bytes(&mut le, x, WORD_LEN);
    proof {
        lemma_le_bytes_len(x as nat, WORD_LEN as nat);
        assert(le@ =~= le_bytes(x as nat, WORD_LEN as nat));
    }
    let ghost start = out@;
    let mut j: usize = 0;
    while j < WORD_LEN
        invariant
            j <= WORD_LEN,
            le@.len() == WORD_LEN,
            le@ == le_bytes(x as nat, WORD_LEN as nat),
            out@ == start + le@.reverse().subrange(0, j as int),
        decreases WORD_LEN - j,
    {
        out.push(le[WORD_LEN - 1 - j]);
        j = j + 1;
        assert(out@ =~= start + le@.reverse().subrange(0, j as int));
    }
    assert(le@.reverse().subrange(0, WORD_LEN as int) =~= le@.reverse());
}

pub fn push_bool_word(out: &mut Vec<u8>, b: bool)
    ensures
        final(out)@ == old(out)@ + bool_word(b),
{
    push_uint_word(
        out,
        if b {
            1
        } else {
            0
        },
    );
}

/// The value of a big-endian byte string.
pub open spec fn be_value(s: Seq<u8>) -> nat
    decreases s.len(),
{
    if s.len() == 0 {
        0
    } else {
        be_value(s.drop_last()) * 256 + s.last() as nat
    }
}

/// The selector a call input opens with, if it is long enough.
pub open spec fn selector_of(input: Seq<u8>) -> Option<u32> {
    if input.len() < SELECTOR_LEN {
        None
    } else {
        Some(be_value(input.subrange(0, SELECTOR_LEN as int)) as u32)
    }
}

/// Reads `n` bytes of `input` from `start` as a big-endian integer.
fn read_be(input: &Vec<u8>, start: usize, n: usize) -> (r: u64)
    requires
        start + n <= input@.len(),
        n <= 8,
    ensures
        r == be_value(input@.subrange(start as int, start + n)),
{
    let len = input.len();
    let mut v: u64 = 0;
    let mut j: usize = 0;
    while j < n
        invariant
            len == input@.len(),
            j <= n,
            n <= 8,
            start + n <= input@.len(),
            v == be_value(input@.subrange(start as int, start + j)),
            v < pow256(j as nat),
        decreases n - j,
    {
        let ghost s = input@.subrange(start as int, start + j + 1);
        assert(s.drop_last() =~= input@.subrange(start as int, start + j));
        assert(pow256(j as nat + 1) == 256 * pow256(j as nat));
        assert(v * 256 + 256 <= pow256(j as nat + 1)) by (nonlinear_arith)
            requires
                v < pow256(j as nat),
                pow256(j as nat + 1) == pow256(j as nat) * 256,
        ;
        assert(pow256(j as nat + 1) <= pow256(8) && pow256(8) == 0x1_0000_0000_0000_0000) by {
            lemma_pow256_mono(j as nat + 1, 8);
        }
        assert(v * 256 + 255 < 0x1_0000_0000_0000_0000);
        assert(start + j < input@.len());
        let b = input[start + j] as u64;
        v = v * 256 + b;
        j = j + 1;
    }
    v
}

/// `256^n`.
pub open spec fn pow256(n: nat) -> nat
    decreases n,
{
    if n == 0 {
        1
    } else {
        256 * pow256((n - 1) as nat)
    }
}

proof fn lemma_pow256_mono(a: nat, b: nat)
    requires
        a <= b,
    ensures
        pow256(a) <= pow256(b),
        pow256(8) == 0x1_0000_0000_0000_0000,
    decreases b - a,
{
    reveal_with_fuel(pow256, 9);
    if a < b {
        lemma_pow256_mono(a, (b - 1) as nat);
    }
}

/// Reads the selector a call input opens with.
pub fn read_selector(input: &Vec<u8>) -> (r: Option<u32>)
    ensures
        r == selector_of(input@),
{
    if input.len() < SELECTOR_LEN {
        return None;
    }
    let v = read_be(input, 0, SELECTOR_LEN);
    proof {
        lemma_pow256_mono(4, 8);
        reveal_with_fuel(pow256, 5);
        assert(v < pow256(4)) by {
            lemma_be_value_bound(input@.subrange(0, SELECTOR_LEN as int));
        }
    }
    Some(v as u32)
}

proof fn lemma_be_value_bound(s: Seq<u8>)
    ensures
        be_value(s) < pow256(s.len()),
    decreases s.len(),
{
    if s.len() > 0 {
        lemma_be_value_bound(s.drop_last());
        let p = pow256((s.len() - 1) as nat);
        let v = be_value(s.drop_last());
        assert(v * 256 + (s.last() as nat) < p * 256) by (nonlinear_arith)
            requires
                v < p,
                s.last() < 256,
        ;
    }
}

/// The first argument of a call, read as a `u64`: the word after the
/// selector, which must be present and below `2^64`.
pub open spec fn u64_arg_of(input: Seq<u8>) -> Option<u64> {
    if input.len() < SELECTOR_LEN + WORD_LEN {
        None
    } else if exists|i: int| SELECTOR_LEN <= i < SELECTOR_LEN + 24 && input[i] != 0 {
        None
    } else {
        Some(be_value(input.subrange(SELECTOR_LEN + 24, SELECTOR_LEN + WORD_LEN)) as u64)
    }
}

pub fn read_u64_arg(input: &Vec<u8>) -> (r: Option<u64>)
    ensures
        r == u64_arg_of(input@),
{
    if input.len() < SELECTOR_LEN + WORD_LEN {
        return None;
    }
    let mut i: usize = SELECTOR_LEN;
    while i < SELECTOR_LEN + 24
        invariant
            SELECTOR_LEN <= i <= SELECTOR_LEN + 24,
            input@.len() >= SELECTOR_LEN + WORD_LEN,
            forall|k: int| SELECTOR_LEN <= k < i ==> input@[k] == 0,
        decreases SELECTOR_LEN + 24 - i,
    {
        if input[i] != 0 {
            return None;
        }
        i = i + 1;
    }
    let v = read_be(input, SELECTOR_LEN + 24, 8);
    Some(v)
}

/// Length of an address.
pub const ADDRESS_LEN: usize = 20;

/// The address the first argument word carries: its last 20 bytes.
pub open spec fn address_arg_of(input: Seq<u8>) -> Option<Seq<u8>> {
    if input.len() < SELECTOR_LEN + WORD_LEN {
        None
    } else {
        Some(input.subrange(SELECTOR_LEN + WORD_LEN - ADDRESS_LEN, SELECTOR_LEN + WORD_LEN))
    }
}

pub fn read_address_arg(input: &Vec<u8>) -> (r: Option<Vec<u8>>)
    ensures
        match address_arg_of(input@) {
            Some(a) => r is Some && r->Some_0@ == a,
            None => r is None,
        },
{
    if input.len() < SELECTOR_LEN + WORD_LEN {
        return None;
    }
    let start = SELECTOR_LEN + WORD_LEN - ADDRESS_LEN;
    let mut out: Vec<u8> = Vec::new();
    let mut i: usize = start;
    while i < SELECTOR_LEN + WORD_LEN
        invariant
            start <= i <= SELECTOR_LEN + WORD_LEN,
            start == SELECTOR_LEN + WORD_LEN - ADDRESS_LEN,
            input@.len() >= SELECTOR_LEN + WORD_LEN,
            out@ == input@.subrange(start as int, i as int),
        decreases SELECTOR_LEN + WORD_LEN - i,
    {
        out.push(input[i]);
        i = i + 1;
        assert(out@ =~= input@.subrange(start as int, i as int));
    }
    Some(out)
}

} // verus!
