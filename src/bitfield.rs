//! Bit-packed piece sets: bit `i` lives in byte `i / 8`, MSB first.
use vstd::prelude::*;

verus! {

/// Whether bit `k` (0 = most significant) of `b` is set.
pub open spec fn get_bit(b: u8, k: u8) -> bool {
    (b >> ((7 - k) as u8)) & 1u8 == 1u8
}

/// Whether bit `i` of the packed sequence is set; bits past the end read as unset.
pub open spec fn bit_at(bytes: Seq<u8>, i: int) -> bool {
    0 <= i && i / 8 < bytes.len() && get_bit(bytes[i / 8], (i % 8) as u8)
}

/// The number of bytes that hold `n` bits.
pub open spec fn bytes_for(n: nat) -> nat {
    (n + 7) as nat / 8
}

/// The bits at and past `n` are all zero.
pub open spec fn padding_clear(bytes: Seq<u8>, n: nat) -> bool {
    forall|i: int| n <= i ==> !#[trigger] bit_at(bytes, i)
}

pub proof fn lemma_bit_set(b: u8, k: u8, j: u8)
    requires
        k < 8,
        j < 8,
    ensures
        get_bit(b | (1u8 << ((7 - k) as u8)), j) == (j == k || get_bit(b, j)),
{
    assert(((b | (1u8 << ((7 - k) as u8))) >> ((7 - j) as u8)) & 1u8 == 1u8 <==> (j == k || (b >> ((7 - j) as u8)) & 1u8 == 1u8)) by (bit_vector)
        requires
            k < 8,
            j < 8,
    ;
}

pub proof fn lemma_bit_clear(b: u8, k: u8, j: u8)
    requires
        k < 8,
        j < 8,
    ensures
        get_bit(b & !(1u8 << ((7 - k) as u8)), j) == (j != k && get_bit(b, j)),
{
    assert(((b & !(1u8 << ((7 - k) as u8))) >> ((7 - j) as u8)) & 1u8 == 1u8 <==> (j != k && (b >> ((7 - j) as u8)) & 1u8 == 1u8)) by (bit_vector)
        requires
            k < 8,
            j < 8,
    ;
}

pub proof fn lemma_zero_byte(j: u8)
    requires
        j < 8,
    ensures
        !get_bit(0u8, j),
{
    assert((0u8 >> ((7 - j) as u8)) & 1u8 != 1u8) by (bit_vector)
        requires
            j < 8,
    ;
}

/// Reads bit `i`; out-of-range bits read as unset.
pub fn test_bit(bytes: &Vec<u8>, i: usize) -> (r: bool)
    ensures
        r == bit_at(bytes@, i as int),
{
    let byte_index = i / 8;
    if byte_index < bytes.len() {
        let shift: u8 = 7 - (i % 8) as u8;
        (bytes[byte_index] >> shift) & 1 == 1
    } else {
        false
    }
}

/// Sets bit `i`, which must lie inside the sequence.
pub fn set_bit(bytes: &mut Vec<u8>, i: usize)
    requires
        i / 8 < old(bytes).len(),
    ensures
        final(bytes).len() == old(bytes).len(),
        forall|j: int| #[trigger]
            bit_at(final(bytes)@, j) == (j == i || bit_at(old(bytes)@, j)),
{
    let byte_index = i / 8;
    let k: u8 = (i % 8) as u8;
    let v = bytes[byte_index];
    bytes.set(byte_index, v | (1u8 << (7u8 - k)));
    assert forall|j: int| #[trigger] bit_at(bytes@, j) == (j == i || bit_at(old(bytes)@, j)) by {
        if 0 <= j && j / 8 < bytes.len() {
            if j / 8 == byte_index {
                lemma_bit_set(v, k, (j % 8) as u8);
            }
        }
    }
}

/// Clears bit `i`, which must lie inside the sequence.
pub fn clear_bit(bytes: &mut Vec<u8>, i: usize)
    requires
        i / 8 < old(bytes).len(),
    ensures
        final(bytes).len() == old(bytes).len(),
        forall|j: int| #[trigger]
            bit_at(final(bytes)@, j) == (j != i && bit_at(old(bytes)@, j)),
{
    let byte_index = i / 8;
    let k: u8 = (i % 8) as u8;
    let v = bytes[byte_index];
    bytes.set(byte_index, v & !(1u8 << (7u8 - k)));
    assert forall|j: int| #[trigger] bit_at(bytes@, j) == (j != i && bit_at(old(bytes)@, j)) by {
        if 0 <= j && j / 8 < bytes.len() {
            if j / 8 == byte_index {
                lemma_bit_clear(v, k, (j % 8) as u8);
            }
        }
    }
}

/// A zeroed sequence holding `n` bits.
pub fn zeroed(n: usize) -> (r: Vec<u8>)
    requires
        n + 7 <= usize::MAX,
    ensures
        r.len() == bytes_for(n as nat),
        forall|i: int| !#[trigger] bit_at(r@, i),
{
    let len: usize = (n + 7) / 8;
    let mut r: Vec<u8> = Vec::with_capacity(len);
    while r.len() < len
        invariant
            r.len() <= len,
            forall|k: int| 0 <= k < r.len() ==> r@[k] == 0u8,
        decreases len - r.len(),
    {
        r.push(0u8);
    }
    assert forall|i: int| !#[trigger] bit_at(r@, i) by {
        if 0 <= i && i / 8 < r.len() {
            lemma_zero_byte((i % 8) as u8);
        }
    }
    r
}

} // verus!
