//! Checksum engine: a fixed-polynomial 16-bit cyclic redundancy check over an
//! arbitrary byte span, computed as a streaming fold.
//!
//! The polynomial is the reflected 0xA001 form; the register starts at zero.
//! Beside the computation itself, this module proves the diagnostic property
//! the protocol leans on: two same-length payloads that differ in exactly one
//! byte never share a checksum.

use vstd::prelude::*;

verus! {

/// The reflected generator polynomial.
pub const CRC_POLY: u16 = 0xA001;

/// One shift-and-conditionally-xor step of the register.
pub open spec fn crc16_step(c: u16) -> u16 {
    if c & 1 == 1 {
        (c >> 1) ^ CRC_POLY
    } else {
        c >> 1
    }
}

/// `n` register steps.
pub open spec fn crc16_steps(c: u16, n: nat) -> u16
    decreases n,
{
    if n == 0 {
        c
    } else {
        crc16_step(crc16_steps(c, (n - 1) as nat))
    }
}

/// Folding one byte into the register.
pub open spec fn crc16_byte(c: u16, b: u8) -> u16 {
    crc16_steps(c ^ (b as u16), 8)
}

/// Folding a whole span into the register, last byte outermost.
pub open spec fn crc16_fold(c: u16, s: Seq<u8>) -> u16
    decreases s.len(),
{
    if s.len() == 0 {
        c
    } else {
        crc16_byte(crc16_fold(c, s.drop_last()), s.last())
    }
}

/// The checksum of a byte span.
pub open spec fn crc16_of(s: Seq<u8>) -> u16 {
    crc16_fold(0, s)
}

/// Folds one byte into a running checksum.
pub fn crc16_update(c: u16, b: u8) -> (r: u16)
    ensures
        r == crc16_byte(c, b),
{
    let x: u16 = c ^ (b as u16);
    let mut acc: u16 = x;
    let mut k: usize = 0;
    while k < 8
        invariant
            k <= 8,
            acc == crc16_steps(x, k as nat),
        decreases 8 - k,
    {
        acc = if acc & 1 == 1 {
            (acc >> 1) ^ CRC_POLY
        } else {
            acc >> 1
        };
        k = k + 1;
    }
    acc
}

/// The checksum of `data`, computed in one pass.
pub fn checksum(data: &Vec<u8>) -> (r: u16)
    ensures
        r == crc16_of(data@),
{
    let mut acc: u16 = 0;
    let mut i: usize = 0;
    while i < data.len()
        invariant
            i <= data.len(),
            acc == crc16_fold(0, data@.take(i as int)),
        decreases data.len() - i,
    {
        proof {
            assert(data@.take(i + 1).drop_last() =~= data@.take(i as int));
            assert(data@.take(i + 1).last() == data@[i as int]);
        }
        acc = crc16_update(acc, data[i]);
        i = i + 1;
    }
    proof {
        assert(data@.take(data@.len() as int) =~= data@);
    }
    acc
}

/// One register step loses no information.
proof fn lemma_step_injective(c1: u16, c2: u16)
    requires
        crc16_step(c1) == crc16_step(c2),
    ensures
        c1 == c2,
{
    assert((if c1 & 1 == 1 { (c1 >> 1) ^ 0xA001u16 } else { c1 >> 1 })
        == (if c2 & 1 == 1 { (c2 >> 1) ^ 0xA001u16 } else { c2 >> 1 }) ==> c1 == c2)
        by (bit_vector);
}

/// Any number of register steps loses no information.
proof fn lemma_steps_injective(c1: u16, c2: u16, n: nat)
    requires
        crc16_steps(c1, n) == crc16_steps(c2, n),
    ensures
        c1 == c2,
    decreases n,
{
    if n != 0 {
        lemma_step_injective(crc16_steps(c1, (n - 1) as nat), crc16_steps(c2, (n - 1) as nat));
        lemma_steps_injective(c1, c2, (n - 1) as nat);
    }
}

/// Folding the same byte into different registers keeps them different.
proof fn lemma_byte_injective_register(c1: u16, c2: u16, b: u8)
    requires
        c1 != c2,
    ensures
        crc16_byte(c1, b) != crc16_byte(c2, b),
{
    let x1 = c1 ^ (b as u16);
    let x2 = c2 ^ (b as u16);
    assert(c1 != c2 ==> (c1 ^ (b as u16)) != (c2 ^ (b as u16))) by (bit_vector);
    if crc16_byte(c1, b) == crc16_byte(c2, b) {
        lemma_steps_injective(x1, x2, 8);
    }
}

/// Folding different bytes into the same register drives it apart.
proof fn lemma_byte_sensitive(c: u16, b1: u8, b2: u8)
    requires
        b1 != b2,
    ensures
        crc16_byte(c, b1) != crc16_byte(c, b2),
{
    assert(b1 != b2 ==> (c ^ (b1 as u16)) != (c ^ (b2 as u16))) by (bit_vector);
    if crc16_byte(c, b1) == crc16_byte(c, b2) {
        lemma_steps_injective(c ^ (b1 as u16), c ^ (b2 as u16), 8);
    }
}

/// Folding the same span into different registers keeps them different.
proof fn lemma_fold_injective_register(c1: u16, c2: u16, s: Seq<u8>)
    requires
        c1 != c2,
    ensures
        crc16_fold(c1, s) != crc16_fold(c2, s),
    decreases s.len(),
{
    if s.len() != 0 {
        lemma_fold_injective_register(c1, c2, s.drop_last());
        lemma_byte_injective_register(
            crc16_fold(c1, s.drop_last()),
            crc16_fold(c2, s.drop_last()),
            s.last(),
        );
    }
}

/// A fold over a concatenation is a fold over each part in turn.
pub proof fn lemma_fold_append(c: u16, a: Seq<u8>, b: Seq<u8>)
    ensures
        crc16_fold(c, a + b) == crc16_fold(crc16_fold(c, a), b),
    decreases b.len(),
{
    if b.len() == 0 {
        assert(a + b =~= a);
    } else {
        assert((a + b).drop_last() =~= a + b.drop_last());
        assert((a + b).last() == b.last());
        lemma_fold_append(c, a, b.drop_last());
    }
}

/// Checksum sensitivity: two payloads of the same length that differ in
/// exactly one byte never share a checksum, so a frame whose payload was
/// altered in one byte (in particular, by one flipped bit) can never pass the
/// check that admitted the original.
pub proof fn lemma_checksum_sensitivity(s1: Seq<u8>, s2: Seq<u8>, i: int)
    requires
        s1.len() == s2.len(),
        0 <= i < s1.len(),
        s1[i] != s2[i],
        forall|j: int| 0 <= j < s1.len() && j != i ==> s1[j] == s2[j],
    ensures
        crc16_of(s1) != crc16_of(s2),
{
    let p1 = s1.take(i);
    let p2 = s2.take(i);
    assert(p1 =~= p2);
    let m1 = s1.take(i + 1);
    let m2 = s2.take(i + 1);
    assert(m1.drop_last() =~= p1);
    assert(m2.drop_last() =~= p2);
    lemma_byte_sensitive(crc16_fold(0, p1), s1[i], s2[i]);
    assert(crc16_fold(0, m1) != crc16_fold(0, m2));
    let t1 = s1.skip(i + 1);
    let t2 = s2.skip(i + 1);
    assert(t1 =~= t2);
    assert(s1 =~= m1 + t1);
    assert(s2 =~= m2 + t2);
    lemma_fold_append(0, m1, t1);
    lemma_fold_append(0, m2, t2);
    lemma_fold_injective_register(crc16_fold(0, m1), crc16_fold(0, m2), t1);
}

} // verus!
