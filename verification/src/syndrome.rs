//! What the checksum makes of inverted bits.
//!
//! The checksum register is a linear machine: the residue of two frames
//! added bit by bit is the sum of their residues. So a frame with inverted
//! bits differs in its residue from the frame that was sent by the residue
//! of the inverted bits alone, their syndrome. In a long frame no single
//! bit has the syndrome zero, and no two bits have the same one.

use vstd::prelude::*;
use crate::crc::{crc24, crc24_byte, crc24_shift};

verus! {

/// The register that holds nothing but the lowest bit of a byte that has
/// just entered.
pub const UNIT: u32 = 0x10000;

/// The register after `n` steps.
pub open spec fn crc24_steps(reg: u32, n: nat) -> u32
    decreases n,
{
    if n == 0 {
        reg
    } else {
        crc24_shift(crc24_steps(reg, (n - 1) as nat))
    }
}

/// Two byte sequences of one length added bit by bit.
pub open spec fn xor_bytes(a: Seq<u8>, b: Seq<u8>) -> Seq<u8> {
    Seq::new(a.len(), |i: int| a[i] ^ b[i])
}

/// The bytes of which bit `k` is one and all others are zero, bits counted
/// from the most significant bit of the first byte.
pub open spec fn unit_bytes(k: int, len: int) -> Seq<u8> {
    Seq::new(
        len as nat,
        |i: int|
            if i == k / 8 {
                1u8 << ((7 - k % 8) as u8)
            } else {
                0u8
            },
    )
}

/// The syndrome of bit `k` of a long frame: the residue of the frame in
/// which that bit alone is one.
pub open spec fn syndrome(k: int) -> u32 {
    crc24_steps(UNIT, (119 - k) as nat)
}

/// A step of the register is linear, and on registers of 24 bits it can be
/// undone.
proof fn lemma_shift(a: u32, b: u32)
    ensures
        crc24_shift(a ^ b) == crc24_shift(a) ^ crc24_shift(b),
        a < 0x1000000 && b < 0x1000000 && crc24_shift(a) == crc24_shift(b) ==> a == b,
        a < 0x1000000 ==> crc24_shift(a) < 0x1000000,
{
    assert(crc24_shift(a ^ b) == crc24_shift(a) ^ crc24_shift(b)) by (bit_vector);
    assert(a < 0x1000000 && b < 0x1000000 && crc24_shift(a) == crc24_shift(b) ==> a == b)
        by (bit_vector);
    assert(a < 0x1000000 ==> crc24_shift(a) < 0x1000000) by (bit_vector);
}

proof fn lemma_steps_to_8()
    ensures
        crc24_steps(UNIT, 0) == 0x10000u32,
        crc24_steps(UNIT, 1) == 0x20000u32,
        crc24_steps(UNIT, 2) == 0x40000u32,
        crc24_steps(UNIT, 3) == 0x80000u32,
        crc24_steps(UNIT, 4) == 0x100000u32,
        crc24_steps(UNIT, 5) == 0x200000u32,
        crc24_steps(UNIT, 6) == 0x400000u32,
        crc24_steps(UNIT, 7) == 0x800000u32,
        crc24_steps(UNIT, 8) == 0xfff409u32,
        forall|d: nat|
            0 < d <= 8 ==> #[trigger] crc24_steps(UNIT, d) != UNIT && crc24_steps(UNIT, d) != 0,
{
    assert(crc24_steps(UNIT, 0) == UNIT);
    assert(crc24_shift(0x10000u32) == 0x20000u32 && crc24_shift(0x20000u32) == 0x40000u32 && crc24_shift(0x40000u32) == 0x80000u32 && crc24_shift(0x80000u32) == 0x100000u32 && crc24_shift(0x100000u32) == 0x200000u32 && crc24_shift(0x200000u32) == 0x400000u32 && crc24_shift(0x400000u32) == 0x800000u32 && crc24_shift(0x800000u32) == 0xfff409u32) by (bit_vector);
    assert(crc24_steps(UNIT, 1) == 0x20000u32);
    assert(crc24_steps(UNIT, 2) == 0x40000u32);
    assert(crc24_steps(UNIT, 3) == 0x80000u32);
    assert(crc24_steps(UNIT, 4) == 0x100000u32);
    assert(crc24_steps(UNIT, 5) == 0x200000u32);
    assert(crc24_steps(UNIT, 6) == 0x400000u32);
    assert(crc24_steps(UNIT, 7) == 0x800000u32);
    assert(crc24_steps(UNIT, 8) == 0xfff409u32);
    assert forall|d: nat| 0 < d <= 8 implies #[trigger] crc24_steps(UNIT, d) != UNIT
        && crc24_steps(UNIT, d) != 0 by {
        assert(d == 1 || d == 2 || d == 3 || d == 4 || d == 5 || d == 6 || d == 7 || d == 8);
    }
}

proof fn lemma_steps_to_16()
    ensures
        crc24_steps(UNIT, 16) == 0xe0d80u32,
        forall|d: nat|
            8 < d <= 16 ==> #[trigger] crc24_steps(UNIT, d) != UNIT && crc24_steps(UNIT, d) != 0,
{
    lemma_steps_to_8();
    assert(crc24_shift(0xfff409u32) == 0x1c1bu32 && crc24_shift(0x1c1bu32) == 0x3836u32 && crc24_shift(0x3836u32) == 0x706cu32 && crc24_shift(0x706cu32) == 0xe0d8u32 && crc24_shift(0xe0d8u32) == 0x1c1b0u32 && crc24_shift(0x1c1b0u32) == 0x38360u32 && crc24_shift(0x38360u32) == 0x706c0u32 && crc24_shift(0x706c0u32) == 0xe0d80u32) by (bit_vector);
    assert(crc24_steps(UNIT, 9) == 0x1c1bu32);
    assert(crc24_steps(UNIT, 10) == 0x3836u32);
    assert(crc24_steps(UNIT, 11) == 0x706cu32);
    assert(crc24_steps(UNIT, 12) == 0xe0d8u32);
    assert(crc24_steps(UNIT, 13) == 0x1c1b0u32);
    assert(crc24_steps(UNIT, 14) == 0x38360u32);
    assert(crc24_steps(UNIT, 15) == 0x706c0u32);
    assert(crc24_steps(UNIT, 16) == 0xe0d80u32);
    assert forall|d: nat| 8 < d <= 16 implies #[trigger] crc24_steps(UNIT, d) != UNIT
        && crc24_steps(UNIT, d) != 0 by {
        assert(d == 9 || d == 10 || d == 11 || d == 12 || d == 13 || d == 14 || d == 15 || d == 16);
    }
}

proof fn lemma_steps_to_24()
    ensures
        crc24_steps(UNIT, 24) == 0xdd441u32,
        forall|d: nat|
            16 < d <= 24 ==> #[trigger] crc24_steps(UNIT, d) != UNIT && crc24_steps(UNIT, d) != 0,
{
    lemma_steps_to_16();
    assert(crc24_shift(0xe0d80u32) == 0x1c1b00u32 && crc24_shift(0x1c1b00u32) == 0x383600u32 && crc24_shift(0x383600u32) == 0x706c00u32 && crc24_shift(0x706c00u32) == 0xe0d800u32 && crc24_shift(0xe0d800u32) == 0x3e4409u32 && crc24_shift(0x3e4409u32) == 0x7c8812u32 && crc24_shift(0x7c8812u32) == 0xf91024u32 && crc24_shift(0xf91024u32) == 0xdd441u32) by (bit_vector);
    assert(crc24_steps(UNIT, 17) == 0x1c1b00u32);
    assert(crc24_steps(UNIT, 18) == 0x383600u32);
    assert(crc24_steps(UNIT, 19) == 0x706c00u32);
    assert(crc24_steps(UNIT, 20) == 0xe0d800u32);
    assert(crc24_steps(UNIT, 21) == 0x3e4409u32);
    assert(crc24_steps(UNIT, 22) == 0x7c8812u32);
    assert(crc24_steps(UNIT, 23) == 0xf91024u32);
    assert(crc24_steps(UNIT, 24) == 0xdd441u32);
    assert forall|d: nat| 16 < d <= 24 implies #[trigger] crc24_steps(UNIT, d) != UNIT
        && crc24_steps(UNIT, d) != 0 by {
        assert(d == 17 || d == 18 || d == 19 || d == 20 || d == 21 || d == 22 || d == 23 || d == 24);
    }
}

proof fn lemma_steps_to_32()
    ensures
        crc24_steps(UNIT, 32) == 0x2bfd53u32,
        forall|d: nat|
            24 < d <= 32 ==> #[trigger] crc24_steps(UNIT, d) != UNIT && crc24_steps(UNIT, d) != 0,
{
    lemma_steps_to_24();
    assert(crc24_shift(0xdd441u32) == 0x1ba882u32 && crc24_shift(0x1ba882u32) == 0x375104u32 && crc24_shift(0x375104u32) == 0x6ea208u32 && crc24_shift(0x6ea208u32) == 0xdd4410u32 && crc24_shift(0xdd4410u32) == 0x457c29u32 && crc24_shift(0x457c29u32) == 0x8af852u32 && crc24_shift(0x8af852u32) == 0xea04adu32 && crc24_shift(0xea04adu32) == 0x2bfd53u32) by (bit_vector);
    assert(crc24_steps(UNIT, 25) == 0x1ba882u32);
    assert(crc24_steps(UNIT, 26) == 0x375104u32);
    assert(crc24_steps(UNIT, 27) == 0x6ea208u32);
    assert(crc24_steps(UNIT, 28) == 0xdd4410u32);
    assert(crc24_steps(UNIT, 29) == 0x457c29u32);
    assert(crc24_steps(UNIT, 30) == 0x8af852u32);
    assert(crc24_steps(UNIT, 31) == 0xea04adu32);
    assert(crc24_steps(UNIT, 32) == 0x2bfd53u32);
    assert forall|d: nat| 24 < d <= 32 implies #[trigger] crc24_steps(UNIT, d) != UNIT
        && crc24_steps(UNIT, d) != 0 by {
        assert(d == 25 || d == 26 || d == 27 || d == 28 || d == 29 || d == 30 || d == 31 || d == 32);
    }
}

proof fn lemma_steps_to_40()
    ensures
        crc24_steps(UNIT, 40) == 0x30aceu32,
        forall|d: nat|
            32 < d <= 40 ==> #[trigger] crc24_steps(UNIT, d) != UNIT && crc24_steps(UNIT, d) != 0,
{
    lemma_steps_to_32();
    assert(crc24_shift(0x2bfd53u32) == 0x57faa6u32 && crc24_shift(0x57faa6u32) == 0xaff54cu32 && crc24_shift(0xaff54cu32) == 0xa01e91u32 && crc24_shift(0xa01e91u32) == 0xbfc92bu32 && crc24_shift(0xbfc92bu32) == 0x80665fu32 && crc24_shift(0x80665fu32) == 0xff38b7u32 && crc24_shift(0xff38b7u32) == 0x18567u32 && crc24_shift(0x18567u32) == 0x30aceu32) by (bit_vector);
    assert(crc24_steps(UNIT, 33) == 0x57faa6u32);
    assert(crc24_steps(UNIT, 34) == 0xaff54cu32);
    assert(crc24_steps(UNIT, 35) == 0xa01e91u32);
    assert(crc24_steps(UNIT, 36) == 0xbfc92bu32);
    assert(crc24_steps(UNIT, 37) == 0x80665fu32);
    assert(crc24_steps(UNIT, 38) == 0xff38b7u32);
    assert(crc24_steps(UNIT, 39) == 0x18567u32);
    assert(crc24_steps(UNIT, 40) == 0x30aceu32);
    assert forall|d: nat| 32 < d <= 40 implies #[trigger] crc24_steps(UNIT, d) != UNIT
        && crc24_steps(UNIT, d) != 0 by {
        assert(d == 33 || d == 34 || d == 35 || d == 36 || d == 37 || d == 38 || d == 39 || d == 40);
    }
}

proof fn lemma_steps_to_48()
    ensures
        crc24_steps(UNIT, 48) == 0xf52612u32,
        forall|d: nat|
            40 < d <= 48 ==> #[trigger] crc24_steps(UNIT, d) != UNIT && crc24_steps(UNIT, d) != 0,
{
    lemma_steps_to_40();
    assert(crc24_shift(0x30aceu32) == 0x6159cu32 && crc24_shift(0x6159cu32) == 0xc2b38u32 && crc24_shift(0xc2b38u32) == 0x185670u32 && crc24_shift(0x185670u32) == 0x30ace0u32 && crc24_shift(0x30ace0u32) == 0x6159c0u32 && crc24_shift(0x6159c0u32) == 0xc2b380u32 && crc24_shift(0xc2b380u32) == 0x7a9309u32 && crc24_shift(0x7a9309u32) == 0xf52612u32) by (bit_vector);
    assert(crc24_steps(UNIT, 41) == 0x6159cu32);
    assert(crc24_steps(UNIT, 42) == 0xc2b38u32);
    assert(crc24_steps(UNIT, 43) == 0x185670u32);
    assert(crc24_steps(UNIT, 44) == 0x30ace0u32);
    assert(crc24_steps(UNIT, 45) == 0x6159c0u32);
    assert(crc24_steps(UNIT, 46) == 0xc2b380u32);
    assert(crc24_steps(UNIT, 47) == 0x7a9309u32);
    assert(crc24_steps(UNIT, 48) == 0xf52612u32);
    assert forall|d: nat| 40 < d <= 48 implies #[trigger] crc24_steps(UNIT, d) != UNIT
        && crc24_steps(UNIT, d) != 0 by {
        assert(d == 41 || d == 42 || d == 43 || d == 44 || d == 45 || d == 46 || d == 47 || d == 48);
    }
}

proof fn lemma_steps_to_56()
    ensures
        crc24_steps(UNIT, 56) == 0xdc7af7u32,
        forall|d: nat|
            48 < d <= 56 ==> #[trigger] crc24_steps(UNIT, d) != UNIT && crc24_steps(UNIT, d) != 0,
{
    lemma_steps_to_48();
    assert(crc24_shift(0xf52612u32) == 0x15b82du32 && crc24_shift(0x15b82du32) == 0x2b705au32 && crc24_shift(0x2b705au32) == 0x56e0b4u32 && crc24_shift(0x56e0b4u32) == 0xadc168u32 && crc24_shift(0xadc168u32) == 0xa476d9u32 && crc24_shift(0xa476d9u32) == 0xb719bbu32 && crc24_shift(0xb719bbu32) == 0x91c77fu32 && crc24_shift(0x91c77fu32) == 0xdc7af7u32) by (bit_vector);
    assert(crc24_steps(UNIT, 49) == 0x15b82du32);
    assert(crc24_steps(UNIT, 50) == 0x2b705au32);
    assert(crc24_steps(UNIT, 51) == 0x56e0b4u32);
    assert(crc24_steps(UNIT, 52) == 0xadc168u32);
    assert(crc24_steps(UNIT, 53) == 0xa476d9u32);
    assert(crc24_steps(UNIT, 54) == 0xb719bbu32);
    assert(crc24_steps(UNIT, 55) == 0x91c77fu32);
    assert(crc24_steps(UNIT, 56) == 0xdc7af7u32);
    assert forall|d: nat| 48 < d <= 56 implies #[trigger] crc24_steps(UNIT, d) != UNIT
        && crc24_steps(UNIT, d) != 0 by {
        assert(d == 49 || d == 50 || d == 51 || d == 52 || d == 53 || d == 54 || d == 55 || d == 56);
    }
}

proof fn lemma_steps_to_64()
    ensures
        crc24_steps(UNIT, 64) == 0x7eda22u32,
        forall|d: nat|
            56 < d <= 64 ==> #[trigger] crc24_steps(UNIT, d) != UNIT && crc24_steps(UNIT, d) != 0,
{
    lemma_steps_to_56();
    assert(crc24_shift(0xdc7af7u32) == 0x4701e7u32 && crc24_shift(0x4701e7u32) == 0x8e03ceu32 && crc24_shift(0x8e03ceu32) == 0xe3f395u32 && crc24_shift(0xe3f395u32) == 0x381323u32 && crc24_shift(0x381323u32) == 0x702646u32 && crc24_shift(0x702646u32) == 0xe04c8cu32 && crc24_shift(0xe04c8cu32) == 0x3f6d11u32 && crc24_shift(0x3f6d11u32) == 0x7eda22u32) by (bit_vector);
    assert(crc24_steps(UNIT, 57) == 0x4701e7u32);
    assert(crc24_steps(UNIT, 58) == 0x8e03ceu32);
    assert(crc24_steps(UNIT, 59) == 0xe3f395u32);
    assert(crc24_steps(UNIT, 60) == 0x381323u32);
    assert(crc24_steps(UNIT, 61) == 0x702646u32);
    assert(crc24_steps(UNIT, 62) == 0xe04c8cu32);
    assert(crc24_steps(UNIT, 63) == 0x3f6d11u32);
    assert(crc24_steps(UNIT, 64) == 0x7eda22u32);
    assert forall|d: nat| 56 < d <= 64 implies #[trigger] crc24_steps(UNIT, d) != UNIT
        && crc24_steps(UNIT, d) != 0 by {
        assert(d == 57 || d == 58 || d == 59 || d == 60 || d == 61 || d == 62 || d == 63 || d == 64);
    }
}

proof fn lemma_steps_to_72()
    ensures
        crc24_steps(UNIT, 72) == 0xd8d449u32,
        forall|d: nat|
            64 < d <= 72 ==> #[trigger] crc24_steps(UNIT, d) != UNIT && crc24_steps(UNIT, d) != 0,
{
    lemma_steps_to_64();
    assert(crc24_shift(0x7eda22u32) == 0xfdb444u32 && crc24_shift(0xfdb444u32) == 0x49c81u32 && crc24_shift(0x49c81u32) == 0x93902u32 && crc24_shift(0x93902u32) == 0x127204u32 && crc24_shift(0x127204u32) == 0x24e408u32 && crc24_shift(0x24e408u32) == 0x49c810u32 && crc24_shift(0x49c810u32) == 0x939020u32 && crc24_shift(0x939020u32) == 0xd8d449u32) by (bit_vector);
    assert(crc24_steps(UNIT, 65) == 0xfdb444u32);
    assert(crc24_steps(UNIT, 66) == 0x49c81u32);
    assert(crc24_steps(UNIT, 67) == 0x93902u32);
    assert(crc24_steps(UNIT, 68) == 0x127204u32);
    assert(crc24_steps(UNIT, 69) == 0x24e408u32);
    assert(crc24_steps(UNIT, 70) == 0x49c810u32);
    assert(crc24_steps(UNIT, 71) == 0x939020u32);
    assert(crc24_steps(UNIT, 72) == 0xd8d449u32);
    assert forall|d: nat| 64 < d <= 72 implies #[trigger] crc24_steps(UNIT, d) != UNIT
        && crc24_steps(UNIT, d) != 0 by {
        assert(d == 65 || d == 66 || d == 67 || d == 68 || d == 69 || d == 70 || d == 71 || d == 72);
    }
}

proof fn lemma_steps_to_80()
    ensures
        crc24_steps(UNIT, 80) == 0xd05c14u32,
        forall|d: nat|
            72 < d <= 80 ==> #[trigger] crc24_steps(UNIT, d) != UNIT && crc24_steps(UNIT, d) != 0,
{
    lemma_steps_to_72();
    assert(crc24_shift(0xd8d449u32) == 0x4e5c9bu32 && crc24_shift(0x4e5c9bu32) == 0x9cb936u32 && crc24_shift(0x9cb936u32) == 0xc68665u32 && crc24_shift(0xc68665u32) == 0x72f8c3u32 && crc24_shift(0x72f8c3u32) == 0xe5f186u32 && crc24_shift(0xe5f186u32) == 0x341705u32 && crc24_shift(0x341705u32) == 0x682e0au32 && crc24_shift(0x682e0au32) == 0xd05c14u32) by (bit_vector);
    assert(crc24_steps(UNIT, 73) == 0x4e5c9bu32);
    assert(crc24_steps(UNIT, 74) == 0x9cb936u32);
    assert(crc24_steps(UNIT, 75) == 0xc68665u32);
    assert(crc24_steps(UNIT, 76) == 0x72f8c3u32);
    assert(crc24_steps(UNIT, 77) == 0xe5f186u32);
    assert(crc24_steps(UNIT, 78) == 0x341705u32);
    assert(crc24_steps(UNIT, 79) == 0x682e0au32);
    assert(crc24_steps(UNIT, 80) == 0xd05c14u32);
    assert forall|d: nat| 72 < d <= 80 implies #[trigger] crc24_steps(UNIT, d) != UNIT
        && crc24_steps(UNIT, d) != 0 by {
        assert(d == 73 || d == 74 || d == 75 || d == 76 || d == 77 || d == 78 || d == 79 || d == 80);
    }
}

proof fn lemma_steps_to_88()
    ensures
        crc24_steps(UNIT, 88) == 0x587178u32,
        forall|d: nat|
            80 < d <= 88 ==> #[trigger] crc24_steps(UNIT, d) != UNIT && crc24_steps(UNIT, d) != 0,
{
    lemma_steps_to_80();
    assert(crc24_shift(0xd05c14u32) == 0x5f4c21u32 && crc24_shift(0x5f4c21u32) == 0xbe9842u32 && crc24_shift(0xbe9842u32) == 0x82c48du32 && crc24_shift(0x82c48du32) == 0xfa7d13u32 && crc24_shift(0xfa7d13u32) == 0xb0e2fu32 && crc24_shift(0xb0e2fu32) == 0x161c5eu32 && crc24_shift(0x161c5eu32) == 0x2c38bcu32 && crc24_shift(0x2c38bcu32) == 0x587178u32) by (bit_vector);
    assert(crc24_steps(UNIT, 81) == 0x5f4c21u32);
    assert(crc24_steps(UNIT, 82) == 0xbe9842u32);
    assert(crc24_steps(UNIT, 83) == 0x82c48du32);
    assert(crc24_steps(UNIT, 84) == 0xfa7d13u32);
    assert(crc24_steps(UNIT, 85) == 0xb0e2fu32);
    assert(crc24_steps(UNIT, 86) == 0x161c5eu32);
    assert(crc24_steps(UNIT, 87) == 0x2c38bcu32);
    assert(crc24_steps(UNIT, 88) == 0x587178u32);
    assert forall|d: nat| 80 < d <= 88 implies #[trigger] crc24_steps(UNIT, d) != UNIT
        && crc24_steps(UNIT, d) != 0 by {
        assert(d == 81 || d == 82 || d == 83 || d == 84 || d == 85 || d == 86 || d == 87 || d == 88);
    }
}

proof fn lemma_steps_to_96()
    ensures
        crc24_steps(UNIT, 96) == 0x726bd4u32,
        forall|d: nat|
            88 < d <= 96 ==> #[trigger] crc24_steps(UNIT, d) != UNIT && crc24_steps(UNIT, d) != 0,
{
    lemma_steps_to_88();
    assert(crc24_shift(0x587178u32) == 0xb0e2f0u32 && crc24_shift(0xb0e2f0u32) == 0x9e31e9u32 && crc24_shift(0x9e31e9u32) == 0xc397dbu32 && crc24_shift(0xc397dbu32) == 0x78dbbfu32 && crc24_shift(0x78dbbfu32) == 0xf1b77eu32 && crc24_shift(0xf1b77eu32) == 0x1c9af5u32 && crc24_shift(0x1c9af5u32) == 0x3935eau32 && crc24_shift(0x3935eau32) == 0x726bd4u32) by (bit_vector);
    assert(crc24_steps(UNIT, 89) == 0xb0e2f0u32);
    assert(crc24_steps(UNIT, 90) == 0x9e31e9u32);
    assert(crc24_steps(UNIT, 91) == 0xc397dbu32);
    assert(crc24_steps(UNIT, 92) == 0x78dbbfu32);
    assert(crc24_steps(UNIT, 93) == 0xf1b77eu32);
    assert(crc24_steps(UNIT, 94) == 0x1c9af5u32);
    assert(crc24_steps(UNIT, 95) == 0x3935eau32);
    assert(crc24_steps(UNIT, 96) == 0x726bd4u32);
    assert forall|d: nat| 88 < d <= 96 implies #[trigger] crc24_steps(UNIT, d) != UNIT
        && crc24_steps(UNIT, d) != 0 by {
        assert(d == 89 || d == 90 || d == 91 || d == 92 || d == 93 || d == 94 || d == 95 || d == 96);
    }
}

proof fn lemma_steps_to_104()
    ensures
        crc24_steps(UNIT, 104) == 0x696a13u32,
        forall|d: nat|
            96 < d <= 104 ==> #[trigger] crc24_steps(UNIT, d) != UNIT && crc24_steps(UNIT, d) != 0,
{
    lemma_steps_to_96();
    assert(crc24_shift(0x726bd4u32) == 0xe4d7a8u32 && crc24_shift(0xe4d7a8u32) == 0x365b59u32 && crc24_shift(0x365b59u32) == 0x6cb6b2u32 && crc24_shift(0x6cb6b2u32) == 0xd96d64u32 && crc24_shift(0xd96d64u32) == 0x4d2ec1u32 && crc24_shift(0x4d2ec1u32) == 0x9a5d82u32 && crc24_shift(0x9a5d82u32) == 0xcb4f0du32 && crc24_shift(0xcb4f0du32) == 0x696a13u32) by (bit_vector);
    assert(crc24_steps(UNIT, 97) == 0xe4d7a8u32);
    assert(crc24_steps(UNIT, 98) == 0x365b59u32);
    assert(crc24_steps(UNIT, 99) == 0x6cb6b2u32);
    assert(crc24_steps(UNIT, 100) == 0xd96d64u32);
    assert(crc24_steps(UNIT, 101) == 0x4d2ec1u32);
    assert(crc24_steps(UNIT, 102) == 0x9a5d82u32);
    assert(crc24_steps(UNIT, 103) == 0xcb4f0du32);
    assert(crc24_steps(UNIT, 104) == 0x696a13u32);
    assert forall|d: nat| 96 < d <= 104 implies #[trigger] crc24_steps(UNIT, d) != UNIT
        && crc24_steps(UNIT, d) != 0 by {
        assert(d == 97 || d == 98 || d == 99 || d == 100 || d == 101 || d == 102 || d == 103 || d == 104);
    }
}

proof fn lemma_steps_to_112()
    ensures
        crc24_steps(UNIT, 112) == 0x97d5b5u32,
        forall|d: nat|
            104 < d <= 112 ==> #[trigger] crc24_steps(UNIT, d) != UNIT && crc24_steps(UNIT, d) != 0,
{
    lemma_steps_to_104();
    assert(crc24_shift(0x696a13u32) == 0xd2d426u32 && crc24_shift(0xd2d426u32) == 0x5a5c45u32 && crc24_shift(0x5a5c45u32) == 0xb4b88au32 && crc24_shift(0xb4b88au32) == 0x96851du32 && crc24_shift(0x96851du32) == 0xd2fe33u32 && crc24_shift(0xd2fe33u32) == 0x5a086fu32 && crc24_shift(0x5a086fu32) == 0xb410deu32 && crc24_shift(0xb410deu32) == 0x97d5b5u32) by (bit_vector);
    assert(crc24_steps(UNIT, 105) == 0xd2d426u32);
    assert(crc24_steps(UNIT, 106) == 0x5a5c45u32);
    assert(crc24_steps(UNIT, 107) == 0xb4b88au32);
    assert(crc24_steps(UNIT, 108) == 0x96851du32);
    assert(crc24_steps(UNIT, 109) == 0xd2fe33u32);
    assert(crc24_steps(UNIT, 110) == 0x5a086fu32);
    assert(crc24_steps(UNIT, 111) == 0xb410deu32);
    assert(crc24_steps(UNIT, 112) == 0x97d5b5u32);
    assert forall|d: nat| 104 < d <= 112 implies #[trigger] crc24_steps(UNIT, d) != UNIT
        && crc24_steps(UNIT, d) != 0 by {
        assert(d == 105 || d == 106 || d == 107 || d == 108 || d == 109 || d == 110 || d == 111 || d == 112);
    }
}

proof fn lemma_steps_to_120()
    ensures
        crc24_steps(UNIT, 120) == 0x2d833cu32,
        forall|d: nat|
            112 < d <= 120 ==> #[trigger] crc24_steps(UNIT, d) != UNIT && crc24_steps(UNIT, d) != 0,
{
    lemma_steps_to_112();
    assert(crc24_shift(0x97d5b5u32) == 0xd05f63u32 && crc24_shift(0xd05f63u32) == 0x5f4acfu32 && crc24_shift(0x5f4acfu32) == 0xbe959eu32 && crc24_shift(0xbe959eu32) == 0x82df35u32 && crc24_shift(0x82df35u32) == 0xfa4a63u32 && crc24_shift(0xfa4a63u32) == 0xb60cfu32 && crc24_shift(0xb60cfu32) == 0x16c19eu32 && crc24_shift(0x16c19eu32) == 0x2d833cu32) by (bit_vector);
    assert(crc24_steps(UNIT, 113) == 0xd05f63u32);
    assert(crc24_steps(UNIT, 114) == 0x5f4acfu32);
    assert(crc24_steps(UNIT, 115) == 0xbe959eu32);
    assert(crc24_steps(UNIT, 116) == 0x82df35u32);
    assert(crc24_steps(UNIT, 117) == 0xfa4a63u32);
    assert(crc24_steps(UNIT, 118) == 0xb60cfu32);
    assert(crc24_steps(UNIT, 119) == 0x16c19eu32);
    assert(crc24_steps(UNIT, 120) == 0x2d833cu32);
    assert forall|d: nat| 112 < d <= 120 implies #[trigger] crc24_steps(UNIT, d) != UNIT
        && crc24_steps(UNIT, d) != 0 by {
        assert(d == 113 || d == 114 || d == 115 || d == 116 || d == 117 || d == 118 || d == 119 || d == 120);
    }
}

/// Within 120 steps the register that starts from `UNIT` neither comes
/// back to `UNIT` nor runs empty.
pub proof fn lemma_steps_do_not_return()
    ensures
        forall|d: nat|
            0 < d <= 120 ==> #[trigger] crc24_steps(UNIT, d) != UNIT && crc24_steps(UNIT, d) != 0,
{
    lemma_steps_to_8();
    lemma_steps_to_16();
    lemma_steps_to_24();
    lemma_steps_to_32();
    lemma_steps_to_40();
    lemma_steps_to_48();
    lemma_steps_to_56();
    lemma_steps_to_64();
    lemma_steps_to_72();
    lemma_steps_to_80();
    lemma_steps_to_88();
    lemma_steps_to_96();
    lemma_steps_to_104();
    lemma_steps_to_112();
    lemma_steps_to_120();
}

/// Steps add up.
pub proof fn lemma_steps_add(reg: u32, a: nat, b: nat)
    ensures
        crc24_steps(crc24_steps(reg, a), b) == crc24_steps(reg, a + b),
    decreases b,
{
    if b > 0 {
        lemma_steps_add(reg, a, (b - 1) as nat);
    }
}

/// The register stays within its 24 bits.
pub proof fn lemma_steps_bound(reg: u32, n: nat)
    requires
        reg < 0x1000000,
    ensures
        crc24_steps(reg, n) < 0x1000000,
    decreases n,
{
    if n > 0 {
        lemma_steps_bound(reg, (n - 1) as nat);
        lemma_shift(crc24_steps(reg, (n - 1) as nat), 0);
    }
}

/// Steps can be undone: where the register is the same after `n` and after
/// `m` steps, it is after `n - m` steps what it was at the start.
proof fn lemma_steps_cancel(reg: u32, n: nat, m: nat)
    requires
        reg < 0x1000000,
        m <= n,
        crc24_steps(reg, n) == crc24_steps(reg, m),
    ensures
        crc24_steps(reg, (n - m) as nat) == reg,
    decreases m,
{
    if m > 0 {
        lemma_steps_bound(reg, (n - 1) as nat);
        lemma_steps_bound(reg, (m - 1) as nat);
        lemma_shift(crc24_steps(reg, (n - 1) as nat), crc24_steps(reg, (m - 1) as nat));
        lemma_steps_cancel(reg, (n - 1) as nat, (m - 1) as nat);
    }
}

/// No bit of a long frame has the syndrome zero, and no two bits have the
/// same syndrome.
pub proof fn lemma_syndromes_differ(j: int, k: int)
    requires
        0 <= j < k < 112,
    ensures
        syndrome(j) != 0,
        syndrome(k) != 0,
        syndrome(j) != syndrome(k),
        syndrome(j) ^ syndrome(k) != 0,
{
    lemma_steps_do_not_return();
    if syndrome(j) == syndrome(k) {
        lemma_steps_cancel(UNIT, (119 - j) as nat, (119 - k) as nat);
        assert(crc24_steps(UNIT, (k - j) as nat) == UNIT);
    }
    let x = syndrome(j);
    let y = syndrome(k);
    assert(x ^ y == 0 ==> x == y) by (bit_vector);
}

/// A byte of zeros moves the register by eight steps.
proof fn lemma_byte_of_zeros(reg: u32)
    ensures
        crc24_byte(reg, 0) == crc24_steps(reg, 8),
{
    assert(reg ^ ((0u8 as u32) << 16) == reg) by (bit_vector);
    reveal_with_fuel(crc24_steps, 9);
}

/// A byte with a single one, entering an empty register, leaves the
/// register where as many steps from `UNIT` lead as the one has bits to its
/// right, and eight more.
proof fn lemma_byte_of_one(s: u8)
    requires
        s < 8,
    ensures
        crc24_byte(0, 1u8 << s) == crc24_steps(UNIT, (s + 8) as nat),
{
    lemma_steps_to_8();
    assert(0u32 ^ (((1u8 << 0u8) as u32) << 16) == 0x10000u32 && 0u32 ^ (((1u8 << 1u8) as u32)
        << 16) == 0x20000u32 && 0u32 ^ (((1u8 << 2u8) as u32) << 16) == 0x40000u32 && 0u32 ^ (((1u8
        << 3u8) as u32) << 16) == 0x80000u32 && 0u32 ^ (((1u8 << 4u8) as u32) << 16) == 0x100000u32
        && 0u32 ^ (((1u8 << 5u8) as u32) << 16) == 0x200000u32 && 0u32 ^ (((1u8 << 6u8) as u32)
        << 16) == 0x400000u32 && 0u32 ^ (((1u8 << 7u8) as u32) << 16) == 0x800000u32)
        by (bit_vector);
    let entered = 0u32 ^ (((1u8 << s) as u32) << 16);
    assert(s == 0 || s == 1 || s == 2 || s == 3 || s == 4 || s == 5 || s == 6 || s == 7);
    assert(entered == crc24_steps(UNIT, s as nat));
    assert(crc24_byte(0, 1u8 << s) == crc24_steps(entered, 8)) by {
        reveal_with_fuel(crc24_steps, 9);
    }
    lemma_steps_add(UNIT, s as nat, 8);
}

/// The residue of two byte sequences added bit by bit is the sum of their
/// residues.
pub proof fn lemma_crc24_is_linear(a: Seq<u8>, b: Seq<u8>)
    requires
        a.len() == b.len(),
    ensures
        crc24(xor_bytes(a, b)) == crc24(a) ^ crc24(b),
    decreases a.len(),
{
    if a.len() == 0 {
        assert(0u32 ^ 0u32 == 0u32) by (bit_vector);
    } else {
        lemma_crc24_is_linear(a.drop_last(), b.drop_last());
        assert(xor_bytes(a, b).drop_last() =~= xor_bytes(a.drop_last(), b.drop_last()));
        lemma_byte_is_linear(crc24(a.drop_last()), crc24(b.drop_last()), a.last(), b.last());
    }
}

/// Steps are linear.
proof fn lemma_steps_are_linear(a: u32, b: u32, n: nat)
    ensures
        crc24_steps(a ^ b, n) == crc24_steps(a, n) ^ crc24_steps(b, n),
    decreases n,
{
    if n > 0 {
        lemma_steps_are_linear(a, b, (n - 1) as nat);
        lemma_shift(crc24_steps(a, (n - 1) as nat), crc24_steps(b, (n - 1) as nat));
    }
}

/// What a byte does to the register is linear.
proof fn lemma_byte_is_linear(x: u32, y: u32, p: u8, q: u8)
    ensures
        crc24_byte(x ^ y, p ^ q) == crc24_byte(x, p) ^ crc24_byte(y, q),
{
    let a = x ^ ((p as u32) << 16);
    let b = y ^ ((q as u32) << 16);
    assert((x ^ y) ^ (((p ^ q) as u32) << 16) == (x ^ ((p as u32) << 16)) ^ (y ^ ((q as u32)
        << 16))) by (bit_vector);
    assert(crc24_byte(x ^ y, p ^ q) == crc24_steps(a ^ b, 8)) by {
        reveal_with_fuel(crc24_steps, 9);
    }
    assert(crc24_byte(x, p) == crc24_steps(a, 8)) by {
        reveal_with_fuel(crc24_steps, 9);
    }
    assert(crc24_byte(y, q) == crc24_steps(b, 8)) by {
        reveal_with_fuel(crc24_steps, 9);
    }
    lemma_steps_are_linear(a, b, 8);
}

/// The residue of the bytes in which bit `k` alone is one.
pub proof fn lemma_residue_of_one(k: int, len: int)
    requires
        0 <= k < 8 * len,
    ensures
        crc24(unit_bytes(k, len)) == crc24_steps(UNIT, (8 * len + 7 - k) as nat),
    decreases len,
{
    let bytes = unit_bytes(k, len);
    if k / 8 == len - 1 {
        lemma_residue_of_zeros(bytes.drop_last());
        lemma_byte_of_one((7 - k % 8) as u8);
    } else {
        assert(bytes.drop_last() =~= unit_bytes(k, len - 1));
        lemma_residue_of_one(k, len - 1);
        lemma_byte_of_zeros(crc24(bytes.drop_last()));
        lemma_steps_add(UNIT, (8 * (len - 1) + 7 - k) as nat, 8);
    }
}

/// Bytes of zeros have the residue zero.
proof fn lemma_residue_of_zeros(bytes: Seq<u8>)
    requires
        forall|i: int| 0 <= i < bytes.len() ==> bytes[i] == 0,
    ensures
        crc24(bytes) == 0,
    decreases bytes.len(),
{
    if bytes.len() > 0 {
        lemma_residue_of_zeros(bytes.drop_last());
        assert(crc24_byte(0u32, 0u8) == 0u32) by (bit_vector);
    }
}

/// The residue of a long frame of which bit `k` alone is one is the
/// syndrome of that bit.
pub proof fn lemma_syndrome(k: int)
    requires
        0 <= k < 112,
    ensures
        crc24(unit_bytes(k, 14)) == syndrome(k),
{
    lemma_residue_of_one(k, 14);
}

} // verus!
