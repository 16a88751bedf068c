//! Preamble detection and frame extraction on a stream of magnitudes.
//!
//! At two million samples per second a Mode S reply starts with a preamble
//! of sixteen samples (eight microseconds) with pulses at samples 0, 2, 7
//! and 9. The data bits follow, one per microsecond and so two samples each,
//! in Manchester code: a bit is one where the first half is the stronger.

use vstd::prelude::*;
use vstd::slice::slice_to_vec;
use crate::crc::{crc24, df_of, frame_is_valid, get_df, verify_crc};
use crate::syndrome::{
    lemma_crc24_is_linear, lemma_syndrome, lemma_syndromes_differ, syndrome, unit_bytes, xor_bytes,
};
use crate::demod::{lemma_magnitude_bound, magnitudes_of, MagnitudeTable, MAX_MAGNITUDE};
use crate::text::{hex_upper, to_hex_upper};

verus! {

/// Samples that the preamble takes.
pub const PREAMBLE_SAMPLES: usize = 16;

/// Data bits of a short frame.
pub const SHORT_FRAME_BITS: usize = 56;

/// Data bits of a long frame.
pub const LONG_FRAME_BITS: usize = 112;

/// Samples that one data bit takes.
pub const SAMPLES_PER_BIT: usize = 2;

/// Samples from the start of a preamble to the end of a long frame.
pub const LONG_FRAME_SPAN: usize = 240;

/// How many of the least certain bits the two-bit repair tries in pairs.
pub const REPAIR_CANDIDATES: usize = 30;

/// The two lengths of a Mode S frame.
#[derive(Debug, Clone, Copy, PartialEq, Eq, Structural)]
pub enum FrameType {
    /// 56 bits.
    Short,
    /// 112 bits.
    Long,
}

/// A frame that passed the checksum, with where and how strongly it was
/// received.
#[derive(Debug, Clone)]
pub struct Frame {
    pub frame_type: FrameType,
    /// The bytes of the frame, 7 or 14.
    pub data: Vec<u8>,
    /// Mean magnitude of the four preamble pulses.
    pub signal_level: u16,
    /// Index, counted over all buffers, of the sample at which the preamble
    /// starts.
    pub timestamp_samples: u64,
}

/// A frame as a mathematical value.
pub struct FrameView {
    pub frame_type: FrameType,
    pub data: Seq<u8>,
    pub signal_level: u16,
    pub timestamp_samples: u64,
}

impl View for Frame {
    type V = FrameView;

    open spec fn view(&self) -> FrameView {
        FrameView {
            frame_type: self.frame_type,
            data: self.data@,
            signal_level: self.signal_level,
            timestamp_samples: self.timestamp_samples,
        }
    }
}

impl Frame {
    /// The downlink format, the upper five bits of the first byte.
    pub fn df(&self) -> (df: u8)
        requires
            self.data@.len() >= 1,
        ensures
            df == df_of(self.data@),
    {
        get_df(self.data.as_slice())
    }

    /// The bytes of the frame as upper-case hexadecimal text.
    pub fn to_hex(&self) -> (text: String)
        ensures
            text@ == hex_upper(self.data@),
    {
        to_hex_upper(self.data.as_slice())
    }
}

/// Sum of the four preamble pulses at position `p`.
pub open spec fn pulse_sum(m: Seq<u16>, p: int) -> int {
    m[p] + m[p + 2] + m[p + 7] + m[p + 9]
}

/// Sum of the seven samples between and right after the pulses.
pub open spec fn space_sum(m: Seq<u16>, p: int) -> int {
    m[p + 1] + m[p + 3] + m[p + 4] + m[p + 5] + m[p + 6] + m[p + 8] + m[p + 10]
}

/// Sum of the five quiet samples that end the preamble.
pub open spec fn quiet_sum(m: Seq<u16>, p: int) -> int {
    m[p + 11] + m[p + 12] + m[p + 13] + m[p + 14] + m[p + 15]
}

/// The larger of two numbers.
pub open spec fn max2(a: int, b: int) -> int {
    if a >= b {
        a
    } else {
        b
    }
}

/// The smaller of two numbers.
pub open spec fn min2(a: int, b: int) -> int {
    if a <= b {
        a
    } else {
        b
    }
}

/// The strongest of the four pulses.
pub open spec fn pulse_max(m: Seq<u16>, p: int) -> int {
    max2(max2(max2(m[p] as int, m[p + 2] as int), m[p + 7] as int), m[p + 9] as int)
}

/// The weakest of the four pulses.
pub open spec fn pulse_min(m: Seq<u16>, p: int) -> int {
    min2(min2(min2(m[p] as int, m[p + 2] as int), m[p + 7] as int), m[p + 9] as int)
}

/// The strongest of the seven spaces.
pub open spec fn space_max(m: Seq<u16>, p: int) -> int {
    max2(
        max2(
            max2(
                max2(max2(max2(m[p + 1] as int, m[p + 3] as int), m[p + 4] as int), m[p + 5] as int),
                m[p + 6] as int,
            ),
            m[p + 8] as int,
        ),
        m[p + 10] as int,
    )
}

/// The adaptive preamble test at position `p` for a given threshold: the
/// pulses outweigh the spaces by three thresholds and by a factor of three,
/// the strongest pulse reaches the threshold, the pulses lie within a factor
/// of three of each other, no space exceeds two thirds of the weakest pulse,
/// and, where a sample follows the preamble, the mean of the quiet zone does
/// not exceed the mean of the pulses.
pub open spec fn is_preamble(m: Seq<u16>, p: int, threshold: int) -> bool {
    &&& 0 <= p
    &&& p + PREAMBLE_SAMPLES <= m.len()
    &&& pulse_sum(m, p) - space_sum(m, p) >= 3 * threshold
    &&& pulse_sum(m, p) >= 3 * space_sum(m, p)
    &&& pulse_max(m, p) >= threshold
    &&& pulse_min(m, p) * 3 >= pulse_max(m, p)
    &&& space_max(m, p) * 3 <= pulse_min(m, p) * 2
    &&& (p + PREAMBLE_SAMPLES < m.len() ==> 4 * quiet_sum(m, p) <= 5 * pulse_sum(m, p))
}

/// The fixed-threshold preamble test at position `p`: the pulses outweigh
/// the spaces by more than a factor of two, the strongest pulse reaches
/// `min_signal`, the weakest pulse is at least half the strongest, and no
/// space exceeds two thirds of the weakest pulse.
pub open spec fn is_plain_preamble(m: Seq<u16>, p: int, min_signal: int) -> bool {
    &&& 0 <= p
    &&& p + PREAMBLE_SAMPLES <= m.len()
    &&& pulse_sum(m, p) > 2 * space_sum(m, p)
    &&& pulse_max(m, p) >= min_signal
    &&& pulse_min(m, p) * 2 >= pulse_max(m, p)
    &&& space_max(m, p) * 3 <= pulse_min(m, p) * 2
}

/// Mean magnitude of the four preamble pulses, rounded down.
pub open spec fn signal_level_at(m: Seq<u16>, p: int) -> u16 {
    (pulse_sum(m, p) / 4) as u16
}

/// Value of data bit `k` of a frame whose first data sample is at `start`:
/// one where the first half of the bit period is the stronger.
pub open spec fn bit_at(m: Seq<u16>, start: int, k: int) -> bool {
    m[start + 2 * k] > m[start + 2 * k + 1]
}

/// Confidence of data bit `k`: the distance between its two halves.
pub open spec fn confidence_at(m: Seq<u16>, start: int, k: int) -> int {
    if m[start + 2 * k] >= m[start + 2 * k + 1] {
        m[start + 2 * k] - m[start + 2 * k + 1]
    } else {
        m[start + 2 * k + 1] - m[start + 2 * k]
    }
}

/// Bit `k` of the first `n` data bits as a number; bits from `n` on are zero.
pub open spec fn bit_value(m: Seq<u16>, start: int, n: int, k: int) -> int {
    if k < n && bit_at(m, start, k) {
        1
    } else {
        0
    }
}

/// Byte `j` of the first `n` data bits, most significant bit first.
pub open spec fn manchester_byte(m: Seq<u16>, start: int, n: int, j: int) -> u8 {
    (128 * bit_value(m, start, n, 8 * j) + 64 * bit_value(m, start, n, 8 * j + 1) + 32 * bit_value(
        m,
        start,
        n,
        8 * j + 2,
    ) + 16 * bit_value(m, start, n, 8 * j + 3) + 8 * bit_value(m, start, n, 8 * j + 4) + 4
        * bit_value(m, start, n, 8 * j + 5) + 2 * bit_value(m, start, n, 8 * j + 6) + bit_value(
        m,
        start,
        n,
        8 * j + 7,
    )) as u8
}

/// The first `n` data bits packed into bytes.
pub open spec fn manchester_bytes(m: Seq<u16>, start: int, n: int) -> Seq<u8> {
    Seq::new(((n + 7) / 8) as nat, |j: int| manchester_byte(m, start, n, j))
}

/// The confidences of the first `n` data bits.
pub open spec fn confidences(m: Seq<u16>, start: int, n: int) -> Seq<i32> {
    Seq::new(n as nat, |k: int| confidence_at(m, start, k) as i32)
}

fn larger(a: i32, b: i32) -> (r: i32)
    ensures
        r == max2(a as int, b as int),
{
    if a >= b {
        a
    } else {
        b
    }
}

fn smaller(a: i32, b: i32) -> (r: i32)
    ensures
        r == min2(a as int, b as int),
{
    if a <= b {
        a
    } else {
        b
    }
}



fn pulse_levels(mag: &[u16], pos: usize) -> (levels: (i32, i32, i32))
    requires
        pos + PREAMBLE_SAMPLES <= mag@.len(),
    ensures
        levels.0 == pulse_sum(mag@, pos as int),
        levels.1 == pulse_max(mag@, pos as int),
        levels.2 == pulse_min(mag@, pos as int),
{
    let len = mag.len();
    let pulse0 = mag[pos] as i32;
    let pulse1 = mag[pos + 2] as i32;
    let pulse2 = mag[pos + 7] as i32;
    let pulse3 = mag[pos + 9] as i32;
    (
        pulse0 + pulse1 + pulse2 + pulse3,
        larger(larger(larger(pulse0, pulse1), pulse2), pulse3),
        smaller(smaller(smaller(pulse0, pulse1), pulse2), pulse3),
    )
}

fn space_levels(mag: &[u16], pos: usize) -> (levels: (i32, i32))
    requires
        pos + PREAMBLE_SAMPLES <= mag@.len(),
    ensures
        levels.0 == space_sum(mag@, pos as int),
        levels.1 == space_max(mag@, pos as int),
{
    let len = mag.len();
    let s1 = mag[pos + 1] as i32;
    let s2 = mag[pos + 3] as i32;
    let s3 = mag[pos + 4] as i32;
    let s4 = mag[pos + 5] as i32;
    let s5 = mag[pos + 6] as i32;
    let s6 = mag[pos + 8] as i32;
    let s7 = mag[pos + 10] as i32;
    (
        s1 + s2 + s3 + s4 + s5 + s6 + s7,
        larger(larger(larger(larger(larger(larger(s1, s2), s3), s4), s5), s6), s7),
    )
}

fn read_bit(mag: &[u16], start: usize, num_bits: usize, k: usize) -> (bit: u8)
    requires
        start + 2 * num_bits <= mag@.len(),
    ensures
        bit == bit_value(mag@, start as int, num_bits as int, k as int),
{
    let len = mag.len();
    if k < num_bits && mag[start + 2 * k] > mag[start + 2 * k + 1] {
        1
    } else {
        0
    }
}



/// The bytes with bit `k` inverted, bits counted from the most significant
/// bit of the first byte.
pub open spec fn flip_bit(bytes: Seq<u8>, k: int) -> Seq<u8> {
    bytes.update(k / 8, bytes[k / 8] ^ (1u8 << ((7 - k % 8) as u8)))
}

/// Bit `a` is less certain than bit `b`: its confidence is lower, or equal
/// with `a` the earlier bit.
pub open spec fn less_certain(conf: Seq<i32>, a: int, b: int) -> bool {
    conf[a] < conf[b] || (conf[a] == conf[b] && a < b)
}

/// `ord` lists the bits `0..n` from the least to the most certain.
pub open spec fn is_confidence_order(ord: Seq<usize>, conf: Seq<i32>, n: int) -> bool {
    &&& ord.len() == n
    &&& forall|i: int| 0 <= i < n ==> 0 <= #[trigger] ord[i] < n
    &&& forall|i: int, j: int|
        0 <= i < j < n ==> less_certain(conf, #[trigger] ord[i] as int, #[trigger] ord[j] as int)
}

/// The bits `0..n` from the least to the most certain.
pub open spec fn confidence_order(conf: Seq<i32>, n: int) -> Seq<usize> {
    choose|ord: Seq<usize>| is_confidence_order(ord, conf, n)
}

/// The first bit from `from` on, below `n`, whose inversion yields a valid
/// frame.
pub open spec fn first_single_repair(bytes: Seq<u8>, n: int, from: int) -> Option<int>
    decreases n - from,
{
    if from >= n {
        None
    } else if frame_is_valid(flip_bit(bytes, from)) {
        Some(from)
    } else {
        first_single_repair(bytes, n, from + 1)
    }
}

/// The bytes with the bits at places `i` and `j` of `ord` inverted.
pub open spec fn flip_pair(bytes: Seq<u8>, ord: Seq<usize>, i: int, j: int) -> Seq<u8> {
    flip_bit(flip_bit(bytes, ord[i] as int), ord[j] as int)
}

/// The first pair of places `(i, j)` with `i < j < limit`, in the order of
/// two nested loops that starts at `(i, j)`, whose inversion yields a valid
/// frame.
pub open spec fn first_pair_repair(
    bytes: Seq<u8>,
    ord: Seq<usize>,
    limit: int,
    i: int,
    j: int,
) -> Option<(int, int)>
    decreases limit - i, limit - j,
{
    if i >= limit || j <= i {
        None
    } else if j >= limit {
        first_pair_repair(bytes, ord, limit, i + 1, i + 2)
    } else if frame_is_valid(flip_pair(bytes, ord, i, j)) {
        Some((i, j))
    } else {
        first_pair_repair(bytes, ord, limit, i, j + 1)
    }
}

/// The repaired frame, if one or two inverted bits make the first `n` bits
/// of `bytes` valid: the first single bit in bit order, else the first pair
/// among the `REPAIR_CANDIDATES` least certain bits.
pub open spec fn repair(bytes: Seq<u8>, conf: Seq<i32>, n: int) -> Option<Seq<u8>> {
    match first_single_repair(bytes, n, 0) {
        Some(k) => Some(flip_bit(bytes, k)),
        None => {
            let ord = confidence_order(conf, n);
            match first_pair_repair(bytes, ord, min2(REPAIR_CANDIDATES as int, n), 0, 1) {
                Some((i, j)) => Some(flip_pair(bytes, ord, i, j)),
                None => None,
            }
        },
    }
}

/// A repaired frame is valid.
pub proof fn lemma_repair_is_valid(bytes: Seq<u8>, conf: Seq<i32>, n: int)
    ensures
        repair(bytes, conf, n) matches Some(fixed) ==> frame_is_valid(fixed),
{
    lemma_first_single_repair(bytes, n, 0);
    let ord = confidence_order(conf, n);
    lemma_first_pair_repair(bytes, ord, min2(REPAIR_CANDIDATES as int, n), 0, 1);
}

/// Inverting a bit twice gives the bytes back.
pub proof fn lemma_flip_twice(bytes: Seq<u8>, k: int)
    requires
        0 <= k < 8 * bytes.len(),
    ensures
        flip_bit(flip_bit(bytes, k), k) == bytes,
{
    let b = bytes[k / 8];
    let shift = (7 - k % 8) as u8;
    assert((b ^ (1u8 << shift)) ^ (1u8 << shift) == b) by (bit_vector);
    assert(flip_bit(flip_bit(bytes, k), k) =~= bytes);
}

/// Inverting a bit is adding the bytes in which that bit alone is one.
pub proof fn lemma_flip_is_sum(bytes: Seq<u8>, k: int)
    requires
        0 <= k < 8 * bytes.len(),
    ensures
        flip_bit(bytes, k) == xor_bytes(bytes, unit_bytes(k, bytes.len() as int)),
{
    let one = unit_bytes(k, bytes.len() as int);
    assert forall|i: int| 0 <= i < bytes.len() implies flip_bit(bytes, k)[i] == bytes[i]
        ^ one[i] by {
        let b = bytes[i];
        assert(b ^ 0u8 == b) by (bit_vector);
    }
    assert(flip_bit(bytes, k) =~= xor_bytes(bytes, one));
}

/// The residue of a long frame of which bit `k` was inverted differs from
/// that of the frame by the syndrome of the bit.
pub proof fn lemma_residue_of_flip(bytes: Seq<u8>, k: int)
    requires
        bytes.len() == 14,
        0 <= k < LONG_FRAME_BITS,
    ensures
        crc24(flip_bit(bytes, k)) == crc24(bytes) ^ syndrome(k),
{
    lemma_flip_is_sum(bytes, k);
    lemma_crc24_is_linear(bytes, unit_bytes(k, 14));
    lemma_syndrome(k);
}

/// A valid frame of which one bit was inverted on its way does not pass the
/// checksum, and is repaired to the frame that was sent.
pub proof fn lemma_single_error_is_repaired(sent: Seq<u8>, k: int, conf: Seq<i32>)
    requires
        frame_is_valid(sent),
        0 <= k < LONG_FRAME_BITS,
    ensures
        !frame_is_valid(flip_bit(sent, k)),
        first_single_repair(flip_bit(sent, k), LONG_FRAME_BITS as int, 0) == Some(k),
        repair(flip_bit(sent, k), conf, LONG_FRAME_BITS as int) == Some(sent),
{
    let received = flip_bit(sent, k);
    lemma_flip_twice(sent, k);
    lemma_residue_of_flip(sent, k);
    let own = syndrome(k);
    assert(0u32 ^ own == own) by (bit_vector);
    if k > 0 {
        lemma_syndromes_differ(0, k);
    } else {
        lemma_syndromes_differ(0, 1);
    }
    assert(crc24(received) == own);
    assert forall|j: int| 0 <= j < k implies !frame_is_valid(flip_bit(received, j)) by {
        lemma_residue_of_flip(received, j);
        lemma_syndromes_differ(j, k);
        let other = syndrome(j);
        assert(own ^ other == other ^ own) by (bit_vector);
    }
    lemma_single_repair_is_first(received, LONG_FRAME_BITS as int, 0, k);
}

/// Where the inversion of bit `k` yields a valid frame and that of no bit
/// before it does, the single repair is at `k`.
proof fn lemma_single_repair_is_first(bytes: Seq<u8>, n: int, from: int, k: int)
    requires
        0 <= from <= k < n,
        frame_is_valid(flip_bit(bytes, k)),
        forall|j: int| from <= j < k ==> !frame_is_valid(flip_bit(bytes, j)),
    ensures
        first_single_repair(bytes, n, from) == Some(k),
    decreases k - from,
{
    if from < k {
        lemma_single_repair_is_first(bytes, n, from + 1, k);
    }
}

proof fn lemma_first_single_repair(bytes: Seq<u8>, n: int, from: int)
    ensures
        first_single_repair(bytes, n, from) matches Some(k) ==> from <= k < n && frame_is_valid(
            flip_bit(bytes, k),
        ),
    decreases n - from,
{
    if from < n && !frame_is_valid(flip_bit(bytes, from)) {
        lemma_first_single_repair(bytes, n, from + 1);
    }
}

proof fn lemma_first_pair_repair(bytes: Seq<u8>, ord: Seq<usize>, limit: int, i: int, j: int)
    ensures
        first_pair_repair(bytes, ord, limit, i, j) matches Some(pair) ==> i <= pair.0 < pair.1
            < limit && frame_is_valid(flip_pair(bytes, ord, pair.0, pair.1)),
    decreases limit - i, limit - j,
{
    if i >= limit || j <= i {
    } else if j >= limit {
        lemma_first_pair_repair(bytes, ord, limit, i + 1, i + 2);
    } else if !frame_is_valid(flip_pair(bytes, ord, i, j)) {
        lemma_first_pair_repair(bytes, ord, limit, i, j + 1);
    }
}

fn flipped(bytes: &[u8], k: usize) -> (out: Vec<u8>)
    requires
        k < 8 * bytes@.len(),
    ensures
        out@ == flip_bit(bytes@, k as int),
{
    let mut out = slice_to_vec(bytes);
    let byte_idx: usize = k / 8;
    let shift: u8 = (7 - k % 8) as u8;
    let b = out[byte_idx];
    out.set(byte_idx, b ^ (1u8 << shift));
    out
}

/// Lists the bits `0..n` from the least to the most certain.
pub fn order_by_confidence(confidence: &[i32], n: usize) -> (ord: Vec<usize>)
    requires
        n <= confidence@.len(),
    ensures
        is_confidence_order(ord@, confidence@, n as int),
        ord@ == confidence_order(confidence@, n as int),
{
    let mut ord: Vec<usize> = Vec::new();
    let mut k: usize = 0;
    while k < n
        invariant
            k <= n <= confidence@.len(),
            is_confidence_order(ord@, confidence@, k as int),
        decreases n - k,
    {
        let c = confidence[k];
        let mut p: usize = ord.len();
        while p > 0 && confidence[ord[p - 1]] > c
            invariant
                p <= ord@.len(),
                k < n <= confidence@.len(),
                c == confidence@[k as int],
                is_confidence_order(ord@, confidence@, k as int),
                forall|i: int| p <= i < ord@.len() ==> confidence@[#[trigger] ord@[i] as int] > c,
            decreases p,
        {
            p = p - 1;
        }
        let ghost before = ord@;
        proof {
            assert forall|i: int| 0 <= i < p implies confidence@[#[trigger] before[i] as int]
                <= c by {
                if i < p - 1 {
                    assert(less_certain(confidence@, before[i] as int, before[p - 1] as int));
                }
            }
        }
        ord.insert(p, k);
        proof {
            let after = ord@;
            assert forall|i: int, j: int| 0 <= i < j < k + 1 implies less_certain(
                confidence@,
                #[trigger] after[i] as int,
                #[trigger] after[j] as int,
            ) by {
                if j < p {
                    assert(after[i] == before[i] && after[j] == before[j]);
                } else if j == p {
                    assert(after[i] == before[i]);
                } else if i < p {
                    assert(after[i] == before[i] && after[j] == before[j - 1]);
                } else if i == p {
                    assert(after[j] == before[j - 1]);
                } else {
                    assert(after[i] == before[i - 1] && after[j] == before[j - 1]);
                }
            }
            assert forall|i: int| 0 <= i < k + 1 implies 0 <= #[trigger] after[i] < k + 1 by {
                if i < p {
                    assert(after[i] == before[i]);
                } else if i > p {
                    assert(after[i] == before[i - 1]);
                }
            }
        }
        k = k + 1;
    }
    proof {
        lemma_confidence_order_unique(ord@, confidence_order(confidence@, n as int), confidence@, n as int);
    }
    ord
}

/// Every bit below `n` has a place in a confidence order.
proof fn lemma_order_covers(ord: Seq<usize>, conf: Seq<i32>, n: int, x: int)
    requires
        is_confidence_order(ord, conf, n),
        0 <= x < n,
    ensures
        exists|i: int| 0 <= i < n && ord[i] == x,
{
    let ints = Seq::new(n as nat, |i: int| ord[i] as int);
    assert forall|i: int, j: int| 0 <= i < ints.len() && 0 <= j < ints.len() && i != j implies ints[i]
        != ints[j] by {
        if i < j {
            assert(less_certain(conf, ord[i] as int, ord[j] as int));
        } else {
            assert(less_certain(conf, ord[j] as int, ord[i] as int));
        }
    }
    assert(ints.no_duplicates());
    ints.unique_seq_to_set();
    let range = vstd::set_lib::set_int_range(0, n);
    vstd::set_lib::lemma_int_range(0, n);
    assert forall|v: int| ints.to_set().contains(v) implies range.contains(v) by {
        let i = choose|i: int| 0 <= i < ints.len() && ints[i] == v;
        assert(0 <= ord[i] < n);
    }
    assert(ints.to_set().subset_of(range));
    vstd::set_lib::lemma_subset_equality(ints.to_set(), range);
    assert(range.contains(x));
    assert(ints.to_set().contains(x));
    let i = choose|i: int| 0 <= i < ints.len() && ints[i] == x;
    assert(ord[i] == x);
}

/// There is only one confidence order.
pub proof fn lemma_confidence_order_unique(a: Seq<usize>, b: Seq<usize>, conf: Seq<i32>, n: int)
    requires
        is_confidence_order(a, conf, n),
    ensures
        is_confidence_order(b, conf, n) ==> a == b,
        confidence_order(conf, n) == a,
{
    if is_confidence_order(b, conf, n) {
        lemma_orders_agree(a, b, conf, n, n);
        assert(a =~= b);
    }
    let c = confidence_order(conf, n);
    assert(is_confidence_order(c, conf, n));
    lemma_orders_agree(a, c, conf, n, n);
    assert(a =~= c);
}

proof fn lemma_orders_agree(a: Seq<usize>, b: Seq<usize>, conf: Seq<i32>, n: int, upto: int)
    requires
        is_confidence_order(a, conf, n),
        is_confidence_order(b, conf, n),
        0 <= upto <= n,
    ensures
        forall|i: int| 0 <= i < upto ==> a[i] == b[i],
    decreases upto,
{
    if upto > 0 {
        lemma_orders_agree(a, b, conf, n, upto - 1);
        let i = upto - 1;
        lemma_order_covers(a, conf, n, b[i] as int);
        let ja = choose|j: int| 0 <= j < n && a[j] == b[i];
        lemma_order_covers(b, conf, n, a[i] as int);
        let jb = choose|j: int| 0 <= j < n && b[j] == a[i];
        if ja < i {
            assert(a[ja] == b[ja]);
            assert(less_certain(conf, b[ja] as int, b[i] as int));
        }
        if jb < i {
            assert(b[jb] == a[jb]);
            assert(less_certain(conf, a[jb] as int, a[i] as int));
        }
        if ja > i {
            assert(less_certain(conf, a[i] as int, a[ja] as int));
        }
        if jb > i {
            assert(less_certain(conf, b[i] as int, b[jb] as int));
        }
    }
}


/// Counters of the detector. Each only grows, and stays at its largest value
/// once it has reached it.
#[derive(Debug, Clone, Copy)]
pub struct DetectorStats {
    pub samples_processed: u64,
    pub preambles_detected: u64,
    pub frames_decoded: u64,
    pub crc_errors: u64,
    pub short_frames: u64,
    pub long_frames: u64,
    pub corrected_frames: u64,
}

impl Default for DetectorStats {
    fn default() -> (stats: DetectorStats)
        ensures
            stats == no_stats(),
    {
        DetectorStats {
            samples_processed: 0,
            preambles_detected: 0,
            frames_decoded: 0,
            crc_errors: 0,
            short_frames: 0,
            long_frames: 0,
            corrected_frames: 0,
        }
    }
}

/// Counters that are all zero.
pub open spec fn no_stats() -> DetectorStats {
    DetectorStats {
        samples_processed: 0,
        preambles_detected: 0,
        frames_decoded: 0,
        crc_errors: 0,
        short_frames: 0,
        long_frames: 0,
        corrected_frames: 0,
    }
}

/// Bits with a confidence below this count as uncertain.
pub const LOW_CONFIDENCE: i32 = 5;

/// What is noted of a preamble after which no valid frame followed.
#[derive(Debug, Clone)]
pub struct CrcDiagnostics {
    /// The count of such failures, this one included.
    pub ordinal: u64,
    /// Downlink format of the bytes as they were received.
    pub df: u8,
    /// Mean magnitude of the four preamble pulses.
    pub signal_level: u16,
    /// Mean confidence of the bits, rounded down.
    pub avg_confidence: i32,
    /// Confidence of the least certain bit.
    pub min_confidence: i32,
    /// Number of bits with a confidence below `LOW_CONFIDENCE`.
    pub low_confidence_bits: usize,
    /// The bytes as they were received.
    pub data: Vec<u8>,
}

/// A note of a failure as a mathematical value.
pub struct DiagnosticsView {
    pub ordinal: u64,
    pub df: u8,
    pub signal_level: u16,
    pub avg_confidence: i32,
    pub min_confidence: i32,
    pub low_confidence_bits: usize,
    pub data: Seq<u8>,
}

impl View for CrcDiagnostics {
    type V = DiagnosticsView;

    open spec fn view(&self) -> DiagnosticsView {
        DiagnosticsView {
            ordinal: self.ordinal,
            df: self.df,
            signal_level: self.signal_level,
            avg_confidence: self.avg_confidence,
            min_confidence: self.min_confidence,
            low_confidence_bits: self.low_confidence_bits,
            data: self.data@,
        }
    }
}

/// The notes of a vector as mathematical values.
pub open spec fn diagnostics_views(notes: Seq<CrcDiagnostics>) -> Seq<DiagnosticsView> {
    notes.map_values(|d: CrcDiagnostics| d@)
}

/// Whether failure number `ordinal` is noted: the first ten are, and then
/// every fiftieth.
pub open spec fn is_sampled(ordinal: u64) -> bool {
    ordinal <= 10 || ordinal % 50 == 0
}

/// Sum of confidences.
pub open spec fn confidence_total(conf: Seq<i32>) -> int
    decreases conf.len(),
{
    if conf.len() == 0 {
        0
    } else {
        confidence_total(conf.drop_last()) + conf.last()
    }
}

/// The lowest of some confidences, 0 where there is none.
pub open spec fn confidence_min(conf: Seq<i32>) -> int
    decreases conf.len(),
{
    if conf.len() == 0 {
        0
    } else if conf.len() == 1 {
        conf.last() as int
    } else {
        min2(confidence_min(conf.drop_last()), conf.last() as int)
    }
}

/// Number of confidences below `LOW_CONFIDENCE`.
pub open spec fn uncertain_bits(conf: Seq<i32>) -> int
    decreases conf.len(),
{
    if conf.len() == 0 {
        0
    } else {
        uncertain_bits(conf.drop_last()) + if conf.last() < LOW_CONFIDENCE {
            1int
        } else {
            0int
        }
    }
}

/// What is noted of failure number `ordinal` at a preamble at `p`.
pub open spec fn diagnostics_at(m: Seq<u16>, p: int, ordinal: u64) -> DiagnosticsView {
    let start = p + PREAMBLE_SAMPLES;
    let raw = manchester_bytes(m, start, LONG_FRAME_BITS as int);
    let conf = confidences(m, start, LONG_FRAME_BITS as int);
    DiagnosticsView {
        ordinal,
        df: df_of(raw),
        signal_level: signal_level_at(m, p),
        avg_confidence: (confidence_total(conf) / (LONG_FRAME_BITS as int)) as i32,
        min_confidence: confidence_min(conf) as i32,
        low_confidence_bits: uncertain_bits(conf) as usize,
        data: raw,
    }
}

/// What a detector remembers between buffers.
pub struct DetectorState {
    /// Threshold of the fixed-threshold preamble test.
    pub min_signal: u16,
    /// Samples seen in all buffers so far.
    pub sample_counter: u64,
    pub stats: DetectorStats,
    /// Largest magnitude seen in the buffers that were looked at for it.
    pub peak: u16,
    /// Running estimate of the mean magnitude.
    pub noise_floor: u32,
    /// Buffers that went into the estimate.
    pub noise_samples: u64,
    /// What was noted of the failures of the last buffer.
    pub diagnostics: Seq<DiagnosticsView>,
}

/// A detector that has seen nothing yet.
pub open spec fn initial_state() -> DetectorState {
    DetectorState {
        min_signal: 10,
        sample_counter: 0,
        stats: no_stats(),
        peak: 0,
        noise_floor: 0,
        noise_samples: 0,
        diagnostics: Seq::empty(),
    }
}

/// A counter after `delta` more events.
pub open spec fn counted(counter: u64, delta: int) -> u64 {
    if counter + delta > u64::MAX {
        u64::MAX
    } else {
        (counter + delta) as u64
    }
}

/// How far `from` is below `n`, 0 where it is not.
pub open spec fn left(n: int, from: int) -> int {
    if from < n {
        n - from
    } else {
        0
    }
}

/// Distance between the samples that go into the mean of a buffer of `n`
/// magnitudes: a hundredth of the buffer, at least 1 and at most 1000.
pub open spec fn sample_step(n: int) -> int {
    max2(1, min2(1000, n / 100))
}

/// Sum of the magnitudes at `from`, `from + step`, `from + 2 * step`, ...
pub open spec fn sampled_sum(m: Seq<u16>, step: int, from: int) -> int
    decreases left(m.len() as int, from),
{
    if from < 0 || from >= m.len() || step <= 0 {
        0
    } else {
        m[from] + sampled_sum(m, step, from + step)
    }
}

/// Number of the positions `from`, `from + step`, ... below `n`.
pub open spec fn sampled_count(n: int, step: int, from: int) -> int
    decreases left(n, from),
{
    if from < 0 || from >= n || step <= 0 {
        0
    } else {
        1 + sampled_count(n, step, from + step)
    }
}

/// Mean, rounded down, of every `sample_step`-th magnitude of a buffer.
pub open spec fn buffer_mean(m: Seq<u16>) -> int {
    sampled_sum(m, sample_step(m.len() as int), 0) / sampled_count(
        m.len() as int,
        sample_step(m.len() as int),
        0,
    )
}

/// The noise floor after a buffer of mean `mean`: the first buffer sets it,
/// each later one moves it a tenth of the way.
pub open spec fn blended_noise_floor(floor: int, first: bool, mean: int) -> int {
    if first {
        mean
    } else {
        (floor * 9 + mean) / 10
    }
}

/// The adaptive threshold for a noise floor: four times the floor, at
/// least 10.
pub open spec fn threshold_for(noise_floor: int) -> int {
    max2(4 * noise_floor, 10)
}

/// The largest magnitude of a buffer, 0 for an empty one.
pub open spec fn peak_of(m: Seq<u16>) -> int
    decreases m.len(),
{
    if m.len() == 0 {
        0
    } else {
        max2(peak_of(m.drop_last()), m.last() as int)
    }
}

/// Whether a buffer of `n` samples is looked at for the peak: about every
/// tenth buffer is.
pub open spec fn looks_for_peak(samples_processed: u64, n: int) -> bool {
    n > 0 && samples_processed as int % (10 * n) < n
}

/// What is decoded at a preamble at `p`: the bytes of a long frame, and
/// whether they had to be repaired. A frame that does not fit in the buffer,
/// and any short frame, is refused.
pub open spec fn decode_at(m: Seq<u16>, p: int) -> Option<(Seq<u8>, bool)> {
    if p + LONG_FRAME_SPAN <= m.len() {
        let start = p + PREAMBLE_SAMPLES;
        let raw = manchester_bytes(m, start, LONG_FRAME_BITS as int);
        if frame_is_valid(raw) {
            Some((raw, false))
        } else {
            match repair(raw, confidences(m, start, LONG_FRAME_BITS as int), LONG_FRAME_BITS as int) {
                Some(fixed) => Some((fixed, true)),
                None => None,
            }
        }
    } else {
        None
    }
}

/// The frame that is reported for the bytes decoded at `p`.
pub open spec fn frame_at(m: Seq<u16>, p: int, counter: u64, bytes: Seq<u8>) -> FrameView {
    FrameView {
        frame_type: FrameType::Long,
        data: bytes,
        signal_level: signal_level_at(m, p),
        timestamp_samples: counted(counter, p),
    }
}

/// What a scan has found so far.
pub struct ScanResult {
    /// The frames, in the order of their positions.
    pub frames: Seq<FrameView>,
    /// Positions that passed the preamble test.
    pub preambles: int,
    /// Frames that needed a repair.
    pub repaired: int,
    /// Preambles after which no valid frame followed.
    pub failures: int,
    /// What was noted of those failures that are sampled.
    pub notes: Seq<DiagnosticsView>,
}

/// A scan that has found nothing.
pub open spec fn empty_scan() -> ScanResult {
    ScanResult { frames: Seq::empty(), preambles: 0, repaired: 0, failures: 0, notes: Seq::empty() }
}

/// What a scan has found after one more failure at `p`, where `errors`
/// failures were counted before the scan.
pub open spec fn with_failure(found: ScanResult, m: Seq<u16>, p: int, errors: u64) -> ScanResult {
    let ordinal = counted(errors, found.failures + 1);
    ScanResult {
        frames: found.frames,
        preambles: found.preambles + 1,
        repaired: found.repaired,
        failures: found.failures + 1,
        notes: if is_sampled(ordinal) {
            found.notes.push(diagnostics_at(m, p, ordinal))
        } else {
            found.notes
        },
    }
}

/// The scan of a buffer from position `i` up to `limit`: at a preamble that
/// a valid frame follows, the frame is reported and the scan goes on behind
/// it; everywhere else it goes on at the next sample. `counter` samples
/// and `errors` failures were counted before the scan.
pub open spec fn scan(
    m: Seq<u16>,
    threshold: int,
    limit: int,
    counter: u64,
    errors: u64,
    i: int,
    found: ScanResult,
) -> ScanResult
    decreases left(limit, i),
{
    if i >= limit {
        found
    } else if is_preamble(m, i, threshold) {
        match decode_at(m, i) {
            Some((bytes, repaired)) => scan(
                m,
                threshold,
                limit,
                counter,
                errors,
                i + LONG_FRAME_SPAN,
                ScanResult {
                    frames: found.frames.push(frame_at(m, i, counter, bytes)),
                    preambles: found.preambles + 1,
                    repaired: found.repaired + if repaired {
                        1int
                    } else {
                        0int
                    },
                    failures: found.failures,
                    notes: found.notes,
                },
            ),
            None => scan(
                m,
                threshold,
                limit,
                counter,
                errors,
                i + 1,
                with_failure(found, m, i, errors),
            ),
        }
    } else {
        scan(m, threshold, limit, counter, errors, i + 1, found)
    }
}

/// The noise floor that a detector in state `s` has after a buffer of
/// magnitudes `m`.
pub open spec fn noise_floor_after(s: DetectorState, m: Seq<u16>) -> int {
    blended_noise_floor(s.noise_floor as int, s.noise_samples == 0, buffer_mean(m))
}

/// What the scan of a whole buffer of magnitudes `m` finds in state `s`.
pub open spec fn scan_buffer(s: DetectorState, m: Seq<u16>) -> ScanResult {
    scan(
        m,
        threshold_for(noise_floor_after(s, m)),
        m.len() - LONG_FRAME_SPAN,
        s.sample_counter,
        s.stats.crc_errors,
        0,
        empty_scan(),
    )
}

/// The frames that a detector in state `s` reports for a buffer of IQ bytes.
/// A buffer too short for one long frame yields none.
pub open spec fn frames_in(s: DetectorState, iq: Seq<u8>) -> Seq<FrameView> {
    if iq.len() / 2 < LONG_FRAME_SPAN {
        Seq::empty()
    } else {
        scan_buffer(s, magnitudes_of(iq)).frames
    }
}

/// The state of a detector after a buffer of IQ bytes. A buffer too short
/// for one long frame leaves the state as it is.
pub open spec fn state_after(s: DetectorState, iq: Seq<u8>) -> DetectorState {
    let n = (iq.len() / 2) as int;
    if n < LONG_FRAME_SPAN {
        s
    } else {
        let m = magnitudes_of(iq);
        let found = scan_buffer(s, m);
        DetectorState {
            min_signal: s.min_signal,
            sample_counter: counted(s.sample_counter, n),
            stats: DetectorStats {
                samples_processed: counted(s.stats.samples_processed, n),
                preambles_detected: counted(s.stats.preambles_detected, found.preambles),
                frames_decoded: counted(s.stats.frames_decoded, found.frames.len() as int),
                crc_errors: counted(s.stats.crc_errors, found.failures),
                short_frames: s.stats.short_frames,
                long_frames: counted(s.stats.long_frames, found.frames.len() as int),
                corrected_frames: counted(s.stats.corrected_frames, found.repaired),
            },
            peak: if looks_for_peak(s.stats.samples_processed, n) {
                max2(s.peak as int, peak_of(m)) as u16
            } else {
                s.peak
            },
            noise_floor: noise_floor_after(s, m) as u32,
            noise_samples: counted(s.noise_samples, 1),
            diagnostics: found.notes,
        }
    }
}

/// Whether every frame is a long frame that passes the checksum.
pub open spec fn are_valid_frames(frames: Seq<FrameView>) -> bool {
    forall|k: int|
        0 <= k < frames.len() ==> frame_is_valid((#[trigger] frames[k]).data) && frames[k].frame_type
            == FrameType::Long
}

proof fn lemma_scan_is_valid(
    m: Seq<u16>,
    threshold: int,
    limit: int,
    counter: u64,
    errors: u64,
    i: int,
    found: ScanResult,
)
    requires
        are_valid_frames(found.frames),
    ensures
        are_valid_frames(scan(m, threshold, limit, counter, errors, i, found).frames),
    decreases left(limit, i),
{
    if i >= limit {
    } else if is_preamble(m, i, threshold) {
        match decode_at(m, i) {
            Some((bytes, repaired)) => {
                let start = i + PREAMBLE_SAMPLES;
                let raw = manchester_bytes(m, start, LONG_FRAME_BITS as int);
                lemma_repair_is_valid(
                    raw,
                    confidences(m, start, LONG_FRAME_BITS as int),
                    LONG_FRAME_BITS as int,
                );
                let next = ScanResult {
                    frames: found.frames.push(frame_at(m, i, counter, bytes)),
                    preambles: found.preambles + 1,
                    repaired: found.repaired + if repaired {
                        1int
                    } else {
                        0int
                    },
                    failures: found.failures,
                    notes: found.notes,
                };
                assert forall|k: int| 0 <= k < next.frames.len() implies frame_is_valid(
                    (#[trigger] next.frames[k]).data,
                ) && next.frames[k].frame_type == FrameType::Long by {
                    if k < found.frames.len() {
                        assert(next.frames[k] == found.frames[k]);
                    }
                }
                lemma_scan_is_valid(
                    m,
                    threshold,
                    limit,
                    counter,
                    errors,
                    i + LONG_FRAME_SPAN,
                    next,
                );
            },
            None => {
                lemma_scan_is_valid(
                    m,
                    threshold,
                    limit,
                    counter,
                    errors,
                    i + 1,
                    with_failure(found, m, i, errors),
                );
            },
        }
    } else {
        lemma_scan_is_valid(m, threshold, limit, counter, errors, i + 1, found);
    }
}

/// Every frame that a detector reports is a long frame that passes the
/// checksum.
pub proof fn lemma_frames_are_valid(s: DetectorState, iq: Seq<u8>)
    ensures
        are_valid_frames(frames_in(s, iq)),
{
    if iq.len() / 2 >= LONG_FRAME_SPAN {
        let m = magnitudes_of(iq);
        lemma_scan_is_valid(
            m,
            threshold_for(noise_floor_after(s, m)),
            m.len() - LONG_FRAME_SPAN,
            s.sample_counter,
            s.stats.crc_errors,
            0,
            empty_scan(),
        );
    }
}

proof fn lemma_scan_counts(
    m: Seq<u16>,
    threshold: int,
    limit: int,
    counter: u64,
    errors: u64,
    i: int,
    found: ScanResult,
)
    requires
        found.preambles >= 0,
        found.repaired >= 0,
        found.failures >= 0,
    ensures
        scan(m, threshold, limit, counter, errors, i, found).preambles >= 0,
        scan(m, threshold, limit, counter, errors, i, found).repaired >= 0,
        scan(m, threshold, limit, counter, errors, i, found).failures >= 0,
    decreases left(limit, i),
{
    if i >= limit {
    } else if is_preamble(m, i, threshold) {
        match decode_at(m, i) {
            Some((bytes, repaired)) => {
                lemma_scan_counts(
                    m,
                    threshold,
                    limit,
                    counter,
                    errors,
                    i + LONG_FRAME_SPAN,
                    ScanResult {
                        frames: found.frames.push(frame_at(m, i, counter, bytes)),
                        preambles: found.preambles + 1,
                        repaired: found.repaired + if repaired {
                            1int
                        } else {
                            0int
                        },
                        failures: found.failures,
                        notes: found.notes,
                    },
                );
            },
            None => {
                lemma_scan_counts(
                    m,
                    threshold,
                    limit,
                    counter,
                    errors,
                    i + 1,
                    with_failure(found, m, i, errors),
                );
            },
        }
    } else {
        lemma_scan_counts(m, threshold, limit, counter, errors, i + 1, found);
    }
}

/// No counter of a detector ever falls while buffers are processed.
pub proof fn lemma_counters_grow(s: DetectorState, iq: Seq<u8>)
    ensures
        state_after(s, iq).sample_counter >= s.sample_counter,
        state_after(s, iq).stats.samples_processed >= s.stats.samples_processed,
        state_after(s, iq).stats.preambles_detected >= s.stats.preambles_detected,
        state_after(s, iq).stats.frames_decoded >= s.stats.frames_decoded,
        state_after(s, iq).stats.crc_errors >= s.stats.crc_errors,
        state_after(s, iq).stats.short_frames >= s.stats.short_frames,
        state_after(s, iq).stats.long_frames >= s.stats.long_frames,
        state_after(s, iq).stats.corrected_frames >= s.stats.corrected_frames,
{
    if iq.len() / 2 >= LONG_FRAME_SPAN {
        let m = magnitudes_of(iq);
        lemma_scan_counts(
            m,
            threshold_for(noise_floor_after(s, m)),
            m.len() - LONG_FRAME_SPAN,
            s.sample_counter,
            s.stats.crc_errors,
            0,
            empty_scan(),
        );
    }
}

/// The frames of a vector as mathematical values.
pub open spec fn frame_views(frames: Seq<Frame>) -> Seq<FrameView> {
    frames.map_values(|f: Frame| f@)
}

/// Detector of Mode S frames in buffers of IQ samples.
pub struct ModeS {
    mag_table: MagnitudeTable,
    min_signal: u16,
    sample_counter: u64,
    stats: DetectorStats,
    max_magnitude_seen: u16,
    noise_floor: u32,
    noise_samples: u64,
    diagnostics: Vec<CrcDiagnostics>,
}

impl View for ModeS {
    type V = DetectorState;

    closed spec fn view(&self) -> DetectorState {
        DetectorState {
            min_signal: self.min_signal,
            sample_counter: self.sample_counter,
            stats: self.stats,
            peak: self.max_magnitude_seen,
            noise_floor: self.noise_floor,
            noise_samples: self.noise_samples,
            diagnostics: diagnostics_views(self.diagnostics@),
        }
    }
}

fn sampled_mean(mag: &[u16]) -> (mean: u32)
    requires
        mag@.len() >= 1,
        2 * mag@.len() <= usize::MAX,
        forall|k: int| 0 <= k < mag@.len() ==> #[trigger] mag@[k] <= MAX_MAGNITUDE,
    ensures
        mean == buffer_mean(mag@),
        mean <= MAX_MAGNITUDE,
{
    let n: usize = mag.len();
    let hundredth: usize = n / 100;
    let step: usize = if hundredth > 1000 {
        1000
    } else if hundredth < 1 {
        1
    } else {
        hundredth
    };
    let mut sum: u128 = 0;
    let mut count: u128 = 0;
    let mut k: usize = 0;
    while k < n
        invariant
            n == mag@.len(),
            2 * n <= usize::MAX,
            1 <= step <= 1000,
            step == sample_step(n as int),
            k <= n + 1000,
            forall|j: int| 0 <= j < mag@.len() ==> #[trigger] mag@[j] <= MAX_MAGNITUDE,
            count <= k,
            k > 0 ==> count >= 1,
            sum <= MAX_MAGNITUDE * count,
            sampled_sum(mag@, step as int, 0) == sum + sampled_sum(mag@, step as int, k as int),
            sampled_count(n as int, step as int, 0) == count + sampled_count(
                n as int,
                step as int,
                k as int,
            ),
        decreases n + 1000 - k,
    {
        sum = sum + mag[k] as u128;
        count = count + 1;
        k = k + step;
    }
    assert(sum / count <= MAX_MAGNITUDE) by (nonlinear_arith)
        requires
            sum <= MAX_MAGNITUDE * count,
            count >= 1,
    ;
    (sum / count) as u32
}

fn largest(mag: &[u16]) -> (peak: u16)
    ensures
        peak == peak_of(mag@),
{
    let mut peak: u16 = 0;
    let mut k: usize = 0;
    while k < mag.len()
        invariant
            k <= mag@.len(),
            peak == peak_of(mag@.take(k as int)),
        decreases mag@.len() - k,
    {
        proof {
            assert(mag@.take(k + 1).drop_last() =~= mag@.take(k as int));
        }
        if mag[k] > peak {
            peak = mag[k];
        }
        k = k + 1;
    }
    assert(mag@.take(mag@.len() as int) =~= mag@);
    peak
}

/// Total, minimum and number of uncertain ones of some confidences.
fn summarize(confidence: &[i32]) -> (res: (i64, i32, usize))
    requires
        forall|k: int| 0 <= k < confidence@.len() ==> 0 <= #[trigger] confidence@[k] <= 0xFFFF,
        confidence@.len() <= 0x10000,
    ensures
        res.0 == confidence_total(confidence@),
        res.1 == confidence_min(confidence@),
        res.2 == uncertain_bits(confidence@),
        0 <= res.0 <= 0xFFFF * confidence@.len(),
        0 <= res.1 <= 0xFFFF,
{
    let mut total: i64 = 0;
    let mut lowest: i32 = 0;
    let mut uncertain: usize = 0;
    let mut k: usize = 0;
    while k < confidence.len()
        invariant
            k <= confidence@.len() <= 0x10000,
            forall|j: int|
                0 <= j < confidence@.len() ==> 0 <= #[trigger] confidence@[j] <= 0xFFFF,
            total == confidence_total(confidence@.take(k as int)),
            lowest == confidence_min(confidence@.take(k as int)),
            uncertain == uncertain_bits(confidence@.take(k as int)),
            0 <= total <= 0xFFFF * k,
            0 <= lowest <= 0xFFFF,
            uncertain <= k,
        decreases confidence@.len() - k,
    {
        let c = confidence[k];
        proof {
            assert(confidence@.take(k + 1).drop_last() =~= confidence@.take(k as int));
            assert(confidence@.take(k + 1).last() == c);
        }
        total = total + c as i64;
        if k == 0 || c < lowest {
            lowest = c;
        }
        if c < LOW_CONFIDENCE {
            uncertain = uncertain + 1;
        }
        k = k + 1;
    }
    proof {
        assert(confidence@.take(confidence@.len() as int) =~= confidence@);
    }
    (total, lowest, uncertain)
}

fn count_up(counter: u64, delta: u64) -> (next: u64)
    ensures
        next == counted(counter, delta as int),
{
    counter.saturating_add(delta)
}

impl ModeS {
    #[verifier::type_invariant]
    spec fn well_formed(&self) -> bool {
        self.noise_floor <= MAX_MAGNITUDE
    }

    /// A detector that has seen nothing yet.
    pub fn new() -> (detector: ModeS)
        ensures
            detector@ == initial_state(),
    {
        let detector = ModeS {
            mag_table: MagnitudeTable::new(),
            min_signal: 10,
            sample_counter: 0,
            stats: DetectorStats::default(),
            max_magnitude_seen: 0,
            noise_floor: 0,
            noise_samples: 0,
            diagnostics: Vec::new(),
        };
        assert(detector@.diagnostics =~= Seq::empty());
        detector
    }

    /// Sets the threshold of the fixed-threshold preamble test.
    pub fn set_threshold(&mut self, threshold: u16)
        ensures
            final(self)@ == (DetectorState { min_signal: threshold, ..old(self)@ }),
    {
        proof {
            use_type_invariant(&*self);
        }
        self.min_signal = threshold;
    }

    /// The counters.
    pub fn get_stats(&self) -> (stats: &DetectorStats)
        ensures
            *stats == self@.stats,
    {
        &self.stats
    }

    /// Sets all counters to zero.
    pub fn reset_stats(&mut self)
        ensures
            final(self)@ == (DetectorState { stats: no_stats(), ..old(self)@ }),
    {
        proof {
            use_type_invariant(&*self);
        }
        self.stats = DetectorStats::default();
    }

    /// The running estimate of the noise floor.
    pub fn get_noise_floor(&self) -> (floor: u32)
        ensures
            floor == self@.noise_floor,
            floor <= MAX_MAGNITUDE,
    {
        proof {
            use_type_invariant(self);
        }
        self.noise_floor
    }

    /// What was noted of the failures of the last buffer: of each of the
    /// first ten failures, and then of every fiftieth.
    pub fn get_diagnostics(&self) -> (notes: &Vec<CrcDiagnostics>)
        ensures
            diagnostics_views(notes@) == self@.diagnostics,
    {
        &self.diagnostics
    }

    /// The largest magnitude seen.
    pub fn get_max_magnitude(&self) -> (peak: u16)
        ensures
            peak == self@.peak,
    {
        self.max_magnitude_seen
    }

    /// Whether a frame passes the strict checksum policy.
    pub fn verify_crc(&self, data: &[u8]) -> (ok: bool)
        ensures
            ok == frame_is_valid(data@),
    {
        verify_crc(data)
    }

    /// Scans a buffer of interleaved IQ bytes and returns the frames found in
    /// it, in the order of their positions. The noise floor, the peak and
    /// the counters are brought up to date.
    pub fn process_buffer(&mut self, iq_data: &[u8]) -> (frames: Vec<Frame>)
        ensures
            frame_views(frames@) == frames_in(old(self)@, iq_data@),
            final(self)@ == state_after(old(self)@, iq_data@),
            are_valid_frames(frame_views(frames@)),
    {
        proof {
            use_type_invariant(&*self);
            lemma_frames_are_valid(self@, iq_data@);
        }
        let num_samples: usize = iq_data.len() / 2;
        if num_samples < LONG_FRAME_SPAN {
            return Vec::new();
        }
        let mut magnitude: Vec<u16> = vec![0u16; num_samples];
        self.mag_table.compute_magnitudes(iq_data, magnitude.as_mut_slice());
        let ghost m = magnitudes_of(iq_data@);
        let ghost before = self@;
        proof {
            assert(magnitude@ =~= m);
            assert forall|k: int| 0 <= k < m.len() implies #[trigger] m[k] <= MAX_MAGNITUDE by {
                lemma_magnitude_bound(iq_data@[2 * k], iq_data@[2 * k + 1]);
            }
        }
        let mag: &[u16] = magnitude.as_slice();

        let mean = sampled_mean(mag);
        if self.noise_samples == 0 {
            self.noise_floor = mean;
        } else {
            self.noise_floor = (self.noise_floor * 9 + mean) / 10;
        }
        self.noise_samples = count_up(self.noise_samples, 1);
        let quadruple: u32 = self.noise_floor * 4;
        let adaptive_threshold: u16 = if quadruple > 10 {
            quadruple as u16
        } else {
            10
        };

        if (self.stats.samples_processed as u128) % (num_samples as u128 * 10)
            < num_samples as u128 {
            let max_in_buffer = largest(mag);
            if max_in_buffer > self.max_magnitude_seen {
                self.max_magnitude_seen = max_in_buffer;
            }
        }
        let mut frames: Vec<Frame> = Vec::new();
        let mut notes: Vec<CrcDiagnostics> = Vec::new();
        let scan_limit: usize = num_samples - LONG_FRAME_SPAN;
        let mut i: usize = 0;
        let ghost mut found = empty_scan();
        assert(diagnostics_views(notes@) =~= found.notes);
        let ghost after = state_after(before, iq_data@);
        while i < scan_limit
            invariant
                mag@ == m,
                m.len() == num_samples,
                scan_limit == num_samples - LONG_FRAME_SPAN,
                i <= num_samples,
                adaptive_threshold == threshold_for(noise_floor_after(before, m)),
                scan_buffer(before, m) == scan(
                    m,
                    adaptive_threshold as int,
                    scan_limit as int,
                    before.sample_counter,
                    before.stats.crc_errors,
                    i as int,
                    found,
                ),
                found.frames == frame_views(frames@),
                found.notes == diagnostics_views(notes@),
                found.preambles >= 0,
                found.repaired >= 0,
                found.failures >= 0,
                self.noise_floor <= MAX_MAGNITUDE,
                self@ == (DetectorState {
                    stats: DetectorStats {
                        preambles_detected: counted(
                            before.stats.preambles_detected,
                            found.preambles,
                        ),
                        frames_decoded: counted(
                            before.stats.frames_decoded,
                            found.frames.len() as int,
                        ),
                        crc_errors: counted(before.stats.crc_errors, found.failures),
                        long_frames: counted(before.stats.long_frames, found.frames.len() as int),
                        corrected_frames: counted(before.stats.corrected_frames, found.repaired),
                        ..before.stats
                    },
                    peak: after.peak,
                    noise_floor: after.noise_floor,
                    noise_samples: after.noise_samples,
                    ..before
                }),
            decreases num_samples - i,
        {
            if self.detect_preamble_adaptive(mag, i, adaptive_threshold) {
                self.stats.preambles_detected = count_up(self.stats.preambles_detected, 1);
                match self.decode_frame(mag, i) {
                    Ok(frame) => {
                        self.stats.frames_decoded = count_up(self.stats.frames_decoded, 1);
                        match frame.frame_type {
                            FrameType::Short => {
                                self.stats.short_frames = count_up(self.stats.short_frames, 1);
                            },
                            FrameType::Long => {
                                self.stats.long_frames = count_up(self.stats.long_frames, 1);
                            },
                        }
                        proof {
                            let decoded = decode_at(m, i as int).unwrap();
                            found = ScanResult {
                                frames: found.frames.push(frame@),
                                preambles: found.preambles + 1,
                                repaired: found.repaired + if decoded.1 {
                                    1int
                                } else {
                                    0int
                                },
                                failures: found.failures,
                                notes: found.notes,
                            };
                            assert(frame_views(frames@.push(frame)) =~= frame_views(frames@).push(
                                frame@,
                            ));
                        }
                        i = i + PREAMBLE_SAMPLES + LONG_FRAME_BITS * SAMPLES_PER_BIT;
                        frames.push(frame);
                    },
                    Err(note) => {
                        proof {
                            found = with_failure(found, m, i as int, before.stats.crc_errors);
                        }
                        match note {
                            Some(d) => {
                                proof {
                                    assert(diagnostics_views(notes@.push(d)) =~= diagnostics_views(
                                        notes@,
                                    ).push(d@));
                                }
                                notes.push(d);
                            },
                            None => {},
                        }
                        i = i + 1;
                    },
                }
            } else {
                i = i + 1;
            }
        }
        self.stats.samples_processed = count_up(self.stats.samples_processed, num_samples as u64);
        self.sample_counter = count_up(self.sample_counter, num_samples as u64);
        self.diagnostics = notes;
        frames
    }

    /// Decodes the frame behind a preamble at `preamble_pos`: a long frame
    /// that passes the checksum as it was received or after a repair. Where
    /// there is none, the failure is counted, and if it is one of those
    /// that are sampled and the buffer holds the samples of a long frame,
    /// what is noted of it is returned.
    pub fn decode_frame(&mut self, mag: &[u16], preamble_pos: usize) -> (res: Result<
        Frame,
        Option<CrcDiagnostics>,
    >)
        requires
            preamble_pos + PREAMBLE_SAMPLES <= mag@.len(),
        ensures
            match decode_at(mag@, preamble_pos as int) {
                Some((bytes, repaired)) => {
                    &&& res matches Ok(frame)
                    &&& frame@ == frame_at(
                        mag@,
                        preamble_pos as int,
                        old(self)@.sample_counter,
                        bytes,
                    )
                    &&& final(self)@ == (DetectorState {
                        stats: DetectorStats {
                            corrected_frames: counted(
                                old(self)@.stats.corrected_frames,
                                if repaired {
                                    1int
                                } else {
                                    0int
                                },
                            ),
                            ..old(self)@.stats
                        },
                        ..old(self)@
                    })
                },
                None => {
                    &&& res matches Err(note)
                    &&& final(self)@ == (DetectorState {
                        stats: DetectorStats {
                            crc_errors: counted(old(self)@.stats.crc_errors, 1),
                            ..old(self)@.stats
                        },
                        ..old(self)@
                    })
                    &&& match note {
                        Some(d) => {
                            &&& is_sampled(counted(old(self)@.stats.crc_errors, 1))
                            &&& preamble_pos + LONG_FRAME_SPAN <= mag@.len()
                            &&& d@ == diagnostics_at(
                                mag@,
                                preamble_pos as int,
                                counted(old(self)@.stats.crc_errors, 1),
                            )
                        },
                        None => !(is_sampled(counted(old(self)@.stats.crc_errors, 1))
                            && preamble_pos + LONG_FRAME_SPAN <= mag@.len()),
                    }
                },
            },
    {
        proof {
            use_type_invariant(&*self);
        }
        let len = mag.len();
        let data_start: usize = preamble_pos + PREAMBLE_SAMPLES;
        let signal_level: u16 = ((mag[preamble_pos] as u32 + mag[preamble_pos + 2] as u32
            + mag[preamble_pos + 7] as u32 + mag[preamble_pos + 9] as u32) / 4) as u16;
        let stamp: u64 = count_up(self.sample_counter, preamble_pos as u64);
        if len - data_start >= LONG_FRAME_BITS * SAMPLES_PER_BIT {
            let (bytes, confidence) = self.extract_bits_with_confidence(
                mag,
                data_start,
                LONG_FRAME_BITS,
            );
            if self.verify_crc(bytes.as_slice()) {
                return Ok(
                    Frame {
                        frame_type: FrameType::Long,
                        data: bytes,
                        signal_level,
                        timestamp_samples: stamp,
                    },
                );
            }
            match self.try_single_bit_correction(
                bytes.as_slice(),
                confidence.as_slice(),
                LONG_FRAME_BITS,
            ) {
                Some(fixed) => {
                    self.stats.corrected_frames = count_up(self.stats.corrected_frames, 1);
                    return Ok(
                        Frame {
                            frame_type: FrameType::Long,
                            data: fixed,
                            signal_level,
                            timestamp_samples: stamp,
                        },
                    );
                },
                None => {},
            }
        }
        if len - data_start >= SHORT_FRAME_BITS * SAMPLES_PER_BIT {
            let bytes = self.extract_bits(mag, data_start, SHORT_FRAME_BITS);
            if self.verify_crc(bytes.as_slice()) {
                return Ok(
                    Frame {
                        frame_type: FrameType::Short,
                        data: bytes,
                        signal_level,
                        timestamp_samples: stamp,
                    },
                );
            }
        }
        self.stats.crc_errors = count_up(self.stats.crc_errors, 1);
        let ordinal = self.stats.crc_errors;
        if (ordinal <= 10 || ordinal % 50 == 0) && len - data_start >= LONG_FRAME_BITS
            * SAMPLES_PER_BIT {
            let (bytes, confidence) = self.extract_bits_with_confidence(
                mag,
                data_start,
                LONG_FRAME_BITS,
            );
            let (total, lowest, uncertain) = summarize(confidence.as_slice());
            return Err(
                Some(
                    CrcDiagnostics {
                        ordinal,
                        df: get_df(bytes.as_slice()),
                        signal_level,
                        avg_confidence: (total / LONG_FRAME_BITS as i64) as i32,
                        min_confidence: lowest,
                        low_confidence_bits: uncertain,
                        data: bytes,
                    },
                ),
            );
        }
        Err(None)
    }

    /// Tests the adaptive preamble criteria at `pos`.
    pub fn detect_preamble_adaptive(&self, mag: &[u16], pos: usize, adaptive_threshold: u16) -> (found:
        bool)
        ensures
            found == is_preamble(mag@, pos as int, adaptive_threshold as int),
    {
        if pos > mag.len() || mag.len() - pos < PREAMBLE_SAMPLES {
            return false;
        }
        let (pulses, high, low) = pulse_levels(mag, pos);
        let (spaces, space_high) = space_levels(mag, pos);
        if pulses - spaces < (adaptive_threshold as i32) * 3 {
            return false;
        }
        if pulses < spaces * 3 {
            return false;
        }
        if high < adaptive_threshold as i32 {
            return false;
        }
        if low * 3 < high {
            return false;
        }
        if space_high * 3 > low * 2 {
            return false;
        }
        if mag.len() - pos > PREAMBLE_SAMPLES {
            let quiet = mag[pos + 11] as i32 + mag[pos + 12] as i32 + mag[pos + 13] as i32 + mag[pos
                + 14] as i32 + mag[pos + 15] as i32;
            if 4 * quiet > 5 * pulses {
                return false;
            }
        }
        true
    }

    /// Tests the fixed-threshold preamble criteria at `pos`, with the
    /// threshold that `set_threshold` has set.
    pub fn detect_preamble(&self, mag: &[u16], pos: usize) -> (found: bool)
        ensures
            found == is_plain_preamble(mag@, pos as int, self@.min_signal as int),
    {
        if pos > mag.len() || mag.len() - pos < PREAMBLE_SAMPLES {
            return false;
        }
        let (pulses, high, low) = pulse_levels(mag, pos);
        let (spaces, space_high) = space_levels(mag, pos);
        if pulses <= spaces * 2 {
            return false;
        }
        if high < self.min_signal as i32 {
            return false;
        }
        if low * 2 < high {
            return false;
        }
        if space_high * 3 > low * 2 {
            return false;
        }
        true
    }

    /// Reads `num_bits` Manchester-coded bits from `start` on and packs them
    /// into bytes, most significant bit first.
    pub fn extract_bits(&self, mag: &[u16], start: usize, num_bits: usize) -> (bytes: Vec<u8>)
        requires
            start + 2 * num_bits <= mag@.len(),
        ensures
            bytes@ == manchester_bytes(mag@, start as int, num_bits as int),
    {
        let len = mag.len();
        let num_bytes: usize = (num_bits + 7) / 8;
        let mut bytes: Vec<u8> = Vec::new();
        let mut j: usize = 0;
        while j < num_bytes
            invariant
                j <= num_bytes,
                num_bytes == (num_bits + 7) / 8,
                start + 2 * num_bits <= mag@.len(),
                bytes@.len() == j,
                forall|i: int|
                    0 <= i < j ==> #[trigger] bytes@[i] == manchester_byte(
                        mag@,
                        start as int,
                        num_bits as int,
                        i,
                    ),
            decreases num_bytes - j,
        {
            let b: u8 = 128 * read_bit(mag, start, num_bits, 8 * j) + 64 * read_bit(
                mag,
                start,
                num_bits,
                8 * j + 1,
            ) + 32 * read_bit(mag, start, num_bits, 8 * j + 2) + 16 * read_bit(
                mag,
                start,
                num_bits,
                8 * j + 3,
            ) + 8 * read_bit(mag, start, num_bits, 8 * j + 4) + 4 * read_bit(
                mag,
                start,
                num_bits,
                8 * j + 5,
            ) + 2 * read_bit(mag, start, num_bits, 8 * j + 6) + read_bit(
                mag,
                start,
                num_bits,
                8 * j + 7,
            );
            bytes.push(b);
            j = j + 1;
        }
        assert(bytes@ =~= manchester_bytes(mag@, start as int, num_bits as int));
        bytes
    }

    /// As `extract_bits`, and beside the bytes the confidence of each bit: the
    /// distance between the two halves of its period.
    pub fn extract_bits_with_confidence(&self, mag: &[u16], start: usize, num_bits: usize) -> (res: (
        Vec<u8>,
        Vec<i32>,
    ))
        requires
            start + 2 * num_bits <= mag@.len(),
        ensures
            res.0@ == manchester_bytes(mag@, start as int, num_bits as int),
            res.1@ == confidences(mag@, start as int, num_bits as int),
    {
        let bytes = self.extract_bits(mag, start, num_bits);
        let len = mag.len();
        let mut confidence: Vec<i32> = Vec::new();
        let mut k: usize = 0;
        while k < num_bits
            invariant
                k <= num_bits,
                start + 2 * num_bits <= mag@.len(),
                len == mag@.len(),
                confidence@.len() == k,
                forall|i: int|
                    0 <= i < k ==> #[trigger] confidence@[i] == confidence_at(mag@, start as int, i),
            decreases num_bits - k,
        {
            let first = mag[start + 2 * k] as i32;
            let second = mag[start + 2 * k + 1] as i32;
            let diff = first - second;
            confidence.push(
                if diff < 0 {
                    -diff
                } else {
                    diff
                },
            );
            k = k + 1;
        }
        assert(confidence@ =~= confidences(mag@, start as int, num_bits as int));
        (bytes, confidence)
    }

    /// Tries to repair a frame that failed the checksum: each single bit of the
    /// first `num_bits` in turn, then each pair among the `REPAIR_CANDIDATES`
    /// least certain bits, and returns the first candidate that is valid.
    pub fn try_single_bit_correction(&self, bytes: &[u8], confidence: &[i32], num_bits: usize) -> (res:
        Option<Vec<u8>>)
        requires
            num_bits <= 8 * bytes@.len(),
            num_bits <= confidence@.len(),
        ensures
            match res {
                Some(fixed) => repair(bytes@, confidence@, num_bits as int) == Some(fixed@),
                None => repair(bytes@, confidence@, num_bits as int) is None,
            },
    {
        let mut k: usize = 0;
        while k < num_bits
            invariant
                k <= num_bits <= 8 * bytes@.len(),
                first_single_repair(bytes@, num_bits as int, 0) == first_single_repair(
                    bytes@,
                    num_bits as int,
                    k as int,
                ),
            decreases num_bits - k,
        {
            let candidate = flipped(bytes, k);
            if self.verify_crc(candidate.as_slice()) {
                return Some(candidate);
            }
            k = k + 1;
        }
        let ord = order_by_confidence(confidence, num_bits);
        let limit: usize = if num_bits < REPAIR_CANDIDATES {
            num_bits
        } else {
            REPAIR_CANDIDATES
        };
        let mut i: usize = 0;
        while i < limit
            invariant
                i <= limit <= num_bits <= 8 * bytes@.len(),
                limit == min2(REPAIR_CANDIDATES as int, num_bits as int),
                is_confidence_order(ord@, confidence@, num_bits as int),
                ord@ == confidence_order(confidence@, num_bits as int),
                first_single_repair(bytes@, num_bits as int, 0) is None,
                first_pair_repair(bytes@, ord@, limit as int, 0, 1) == first_pair_repair(
                    bytes@,
                    ord@,
                    limit as int,
                    i as int,
                    i + 1,
                ),
            decreases limit - i,
        {
            let mut j: usize = i + 1;
            while j < limit
                invariant
                    i < j <= limit <= num_bits <= 8 * bytes@.len(),
                    limit == min2(REPAIR_CANDIDATES as int, num_bits as int),
                    is_confidence_order(ord@, confidence@, num_bits as int),
                    ord@ == confidence_order(confidence@, num_bits as int),
                    first_single_repair(bytes@, num_bits as int, 0) is None,
                    first_pair_repair(bytes@, ord@, limit as int, 0, 1) == first_pair_repair(
                        bytes@,
                        ord@,
                        limit as int,
                        i as int,
                        j as int,
                    ),
                decreases limit - j,
            {
                let once = flipped(bytes, ord[i]);
                let candidate = flipped(once.as_slice(), ord[j]);
                if self.verify_crc(candidate.as_slice()) {
                    return Some(candidate);
                }
                j = j + 1;
            }
            i = i + 1;
        }
        None
    }
}

impl Default for ModeS {
    fn default() -> (detector: ModeS)
        ensures
            detector@ == initial_state(),
    {
        ModeS::new()
    }
}

} // verus!
