//! CRC-24 of Mode S frames and the header fields that need no decoding.

use vstd::prelude::*;

verus! {

/// Generator polynomial of the Mode S checksum, with its leading term.
pub const CRC24_POLY: u32 = 0x1FFF409;

/// Length in bytes of a long (112-bit) Mode S frame.
pub const LONG_FRAME_BYTES: usize = 14;

/// Length in bytes of a short (56-bit) Mode S frame.
pub const SHORT_FRAME_BYTES: usize = 7;

/// One step of the checksum register: the register moves one bit to the left
/// and the generator is subtracted when a one leaves the 24-bit window.
pub open spec fn crc24_shift(reg: u32) -> u32 {
    if reg & 0x800000 != 0 {
        (reg << 1) ^ CRC24_POLY
    } else {
        reg << 1
    }
}

/// The register after one more message byte: the byte enters at the top of
/// the window, then the register makes eight steps.
pub open spec fn crc24_byte(reg: u32, byte: u8) -> u32 {
    crc24_shift(
        crc24_shift(
            crc24_shift(
                crc24_shift(
                    crc24_shift(
                        crc24_shift(crc24_shift(crc24_shift(reg ^ ((byte as u32) << 16)))),
                    ),
                ),
            ),
        ),
    )
}

/// CRC-24 residue of a byte sequence, most significant bit first, starting
/// from an empty register.
pub open spec fn crc24(bytes: Seq<u8>) -> u32
    decreases bytes.len(),
{
    if bytes.len() == 0 {
        0
    } else {
        crc24_byte(crc24(bytes.drop_last()), bytes.last())
    }
}

/// Downlink format of a frame: the upper five bits of its first byte.
pub open spec fn df_of(bytes: Seq<u8>) -> u8
    recommends
        bytes.len() >= 1,
{
    bytes[0] / 8
}

/// ICAO address of a frame: bytes 1 to 3 read as one big-endian number.
pub open spec fn icao_of(bytes: Seq<u8>) -> u32
    recommends
        bytes.len() >= 4,
{
    (bytes[1] as u32 * 65536 + bytes[2] as u32 * 256 + bytes[3] as u32) as u32
}

/// The downlink formats whose checksum covers the whole frame with residue
/// zero: all-call replies and the two extended squitters.
pub open spec fn df_is_checkable(df: u8) -> bool {
    df == 11 || df == 17 || df == 18
}

/// A frame that passes the strict checksum policy: a long frame of a
/// checkable downlink format whose residue is zero.
pub open spec fn frame_is_valid(bytes: Seq<u8>) -> bool {
    &&& bytes.len() == LONG_FRAME_BYTES
    &&& df_is_checkable(df_of(bytes))
    &&& crc24(bytes) == 0
}

/// The register never leaves its 24-bit window.
pub proof fn lemma_crc24_byte_bound(reg: u32, byte: u8)
    requires
        reg < 0x1000000,
    ensures
        crc24_byte(reg, byte) < 0x1000000,
{
    let r0 = reg ^ ((byte as u32) << 16);
    assert(r0 < 0x1000000) by (bit_vector)
        requires
            reg < 0x1000000,
            r0 == reg ^ ((byte as u32) << 16),
    ;
    let r1 = crc24_shift(r0);
    lemma_crc24_shift_bound(r0);
    let r2 = crc24_shift(r1);
    lemma_crc24_shift_bound(r1);
    let r3 = crc24_shift(r2);
    lemma_crc24_shift_bound(r2);
    let r4 = crc24_shift(r3);
    lemma_crc24_shift_bound(r3);
    let r5 = crc24_shift(r4);
    lemma_crc24_shift_bound(r4);
    let r6 = crc24_shift(r5);
    lemma_crc24_shift_bound(r5);
    let r7 = crc24_shift(r6);
    lemma_crc24_shift_bound(r6);
    lemma_crc24_shift_bound(r7);
}

proof fn lemma_crc24_shift_bound(reg: u32)
    requires
        reg < 0x1000000,
    ensures
        crc24_shift(reg) < 0x1000000,
{
    assert(reg & 0x800000 != 0 ==> ((reg << 1) ^ 0x1FFF409u32) < 0x1000000) by (bit_vector)
        requires
            reg < 0x1000000,
    ;
    assert(reg & 0x800000 == 0 ==> (reg << 1) < 0x1000000) by (bit_vector)
        requires
            reg < 0x1000000,
    ;
}

/// The residue of any byte sequence fits in 24 bits.
pub proof fn lemma_crc24_bound(bytes: Seq<u8>)
    ensures
        crc24(bytes) < 0x1000000,
    decreases bytes.len(),
{
    if bytes.len() > 0 {
        lemma_crc24_bound(bytes.drop_last());
        lemma_crc24_byte_bound(crc24(bytes.drop_last()), bytes.last());
    }
}

fn crc24_step(reg: u32) -> (next: u32)
    ensures
        next == crc24_shift(reg),
{
    if reg & 0x800000 != 0 {
        (reg << 1) ^ CRC24_POLY
    } else {
        reg << 1
    }
}

/// Computes the CRC-24 residue over the first `bits / 8` bytes of `msg`.
pub fn compute_crc24(msg: &[u8], bits: usize) -> (crc: u32)
    requires
        bits / 8 <= msg@.len(),
    ensures
        crc == crc24(msg@.take((bits / 8) as int)),
        crc < 0x1000000,
{
    let bytes: usize = bits / 8;
    let mut reg: u32 = 0;
    let mut i: usize = 0;
    while i < bytes
        invariant
            i <= bytes <= msg@.len(),
            reg == crc24(msg@.take(i as int)),
            reg < 0x1000000,
        decreases bytes - i,
    {
        let ghost before = reg;
        reg = reg ^ ((msg[i] as u32) << 16);
        reg = crc24_step(reg);
        reg = crc24_step(reg);
        reg = crc24_step(reg);
        reg = crc24_step(reg);
        reg = crc24_step(reg);
        reg = crc24_step(reg);
        reg = crc24_step(reg);
        reg = crc24_step(reg);
        proof {
            let next = msg@.take(i + 1);
            assert(next.drop_last() =~= msg@.take(i as int));
            assert(next.last() == msg@[i as int]);
            assert(reg == crc24_byte(before, msg@[i as int]));
            lemma_crc24_byte_bound(before, msg@[i as int]);
        }
        i = i + 1;
    }
    assert(reg & 0xFFFFFF == reg) by (bit_vector)
        requires
            reg < 0x1000000,
    ;
    assert(msg@.take(bytes as int) == msg@.take((bits / 8) as int));
    reg & 0xFFFFFF
}

/// Checks a frame against the strict checksum policy: only a long frame of
/// downlink format 11, 17 or 18 with residue zero is accepted; every other
/// length or format is refused.
pub fn check_crc(msg: &[u8]) -> (res: Result<(), ()>)
    ensures
        res is Ok <==> frame_is_valid(msg@),
{
    let len = msg.len();
    if len != LONG_FRAME_BYTES {
        return Err(());
    }
    let df = get_df(msg);
    if df == 11 || df == 17 || df == 18 {
        let residue = compute_crc24(msg, 112);
        assert(msg@.take(14) =~= msg@);
        if residue == 0 {
            Ok(())
        } else {
            Err(())
        }
    } else {
        Err(())
    }
}

/// Whether a frame passes the strict checksum policy.
pub fn verify_crc(data: &[u8]) -> (ok: bool)
    ensures
        ok == frame_is_valid(data@),
{
    check_crc(data).is_ok()
}

/// The ICAO address of a frame, bytes 1 to 3 as a big-endian number.
pub fn get_icao(msg: &[u8]) -> (icao: u32)
    requires
        msg@.len() >= 4,
    ensures
        icao == icao_of(msg@),
        icao == ((msg@[1] as u32) << 16) | ((msg@[2] as u32) << 8) | (msg@[3] as u32),
        icao < 0x1000000,
{
    let b1 = msg[1];
    let b2 = msg[2];
    let b3 = msg[3];
    assert((((b1 as u32) << 16) | ((b2 as u32) << 8) | (b3 as u32)) == (b1 as u32) * 65536 + (
    b2 as u32) * 256 + (b3 as u32)) by (bit_vector);
    ((b1 as u32) << 16) | ((b2 as u32) << 8) | (b3 as u32)
}

/// The downlink format of a frame, the upper five bits of its first byte.
pub fn get_df(msg: &[u8]) -> (df: u8)
    requires
        msg@.len() >= 1,
    ensures
        df == df_of(msg@),
        df == (msg@[0] >> 3) & 0x1F,
        df < 32,
{
    let b0 = msg[0];
    assert((b0 >> 3) & 0x1F == b0 / 8) by (bit_vector);
    (b0 >> 3) & 0x1F
}

} // verus!
