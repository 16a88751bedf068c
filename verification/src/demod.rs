//! Magnitude of IQ samples.
//!
//! The radio delivers unsigned 8-bit I and Q values biased at 127. Preamble
//! detection needs no exact modulus, so the magnitude is approximated by
//! `max + 0.4 * min` of the two absolute values, with 0.4 taken as 102/256.

use vstd::prelude::*;

verus! {

/// Number of entries of the lookup table: one for each pair of I and Q.
pub const TABLE_ENTRIES: usize = 65536;

/// Largest magnitude that any pair of samples can have.
pub const MAX_MAGNITUDE: u16 = 179;

/// Distance of a raw sample from the bias point 127.
pub open spec fn sample_abs(raw: u8) -> int {
    if raw >= 127 {
        raw - 127
    } else {
        127 - raw
    }
}

/// The approximation `max(a, b) + 0.4 * min(a, b)`, scaled by 256 while it is
/// computed and rounded down.
pub open spec fn approx_magnitude(a: int, b: int) -> int {
    if a > b {
        (a * 256 + b * 102) / 256
    } else {
        (b * 256 + a * 102) / 256
    }
}

/// Magnitude of the sample pair `(i, q)`.
pub open spec fn magnitude_of(i: u8, q: u8) -> int {
    approx_magnitude(sample_abs(i), sample_abs(q))
}

/// Magnitudes of a buffer of interleaved I and Q bytes, one for each complete
/// pair.
pub open spec fn magnitudes_of(iq: Seq<u8>) -> Seq<u16> {
    Seq::new((iq.len() / 2) as nat, |k: int| magnitude_of(iq[2 * k], iq[2 * k + 1]) as u16)
}

/// The approximation does not shrink when either absolute value grows.
pub proof fn lemma_magnitude_monotone(i1: u8, q1: u8, i2: u8, q2: u8)
    requires
        sample_abs(i1) <= sample_abs(i2),
        sample_abs(q1) <= sample_abs(q2),
    ensures
        magnitude_of(i1, q1) <= magnitude_of(i2, q2),
{
}

/// Every magnitude lies between 0 and `MAX_MAGNITUDE`.
pub proof fn lemma_magnitude_bound(i: u8, q: u8)
    ensures
        0 <= magnitude_of(i, q) <= MAX_MAGNITUDE,
{
}

/// The table entry at position `k`: the magnitude of the pair `(k / 256, k % 256)`.
pub open spec fn table_entry(k: int) -> int {
    magnitude_of((k / 256) as u8, (k % 256) as u8)
}

/// Lookup table from a sample pair to its magnitude, indexed by
/// `i * 256 + q`.
pub struct MagnitudeTable {
    table: Vec<u16>,
}

fn approximate(i: u8, q: u8) -> (m: u16)
    ensures
        m == magnitude_of(i, q),
{
    let ai: u32 = if i >= 127 {
        (i - 127) as u32
    } else {
        (127 - i) as u32
    };
    let aq: u32 = if q >= 127 {
        (q - 127) as u32
    } else {
        (127 - q) as u32
    };
    let scaled: u32 = if ai > aq {
        ai * 256 + aq * 102
    } else {
        aq * 256 + ai * 102
    };
    (scaled / 256) as u16
}

impl MagnitudeTable {
    /// The table holds the magnitude of every pair of samples. Every table
    /// does: no other can be made.
    #[verifier::type_invariant]
    pub closed spec fn is_complete(&self) -> bool {
        &&& self.table@.len() == TABLE_ENTRIES
        &&& forall|k: int|
            0 <= k < TABLE_ENTRIES ==> #[trigger] self.table@[k] == table_entry(k)
    }

    /// Builds the table.
    pub fn new() -> (t: MagnitudeTable)
        ensures
            t.is_complete(),
    {
        let mut table: Vec<u16> = Vec::new();
        let mut idx: usize = 0;
        while idx < TABLE_ENTRIES
            invariant
                idx <= TABLE_ENTRIES,
                table@.len() == idx,
                forall|k: int| 0 <= k < idx ==> #[trigger] table@[k] == table_entry(k),
            decreases TABLE_ENTRIES - idx,
        {
            let mag = approximate((idx / 256) as u8, (idx % 256) as u8);
            table.push(mag);
            idx = idx + 1;
        }
        MagnitudeTable { table }
    }

    /// The magnitude of one sample pair.
    pub fn magnitude(&self, i: u8, q: u8) -> (m: u16)
        ensures
            m == magnitude_of(i, q),
            m <= MAX_MAGNITUDE,
    {
        proof {
            use_type_invariant(self);
            lemma_magnitude_bound(i, q);
        }
        let k: usize = (i as usize) * 256 + (q as usize);
        assert(k / 256 == i && k % 256 == q);
        self.table[k]
    }

    /// Writes the magnitude of each complete pair of `iq_data` to `output`,
    /// as far as `output` has room; the rest of `output` keeps its values.
    pub fn compute_magnitudes(&self, iq_data: &[u8], output: &mut [u16])
        ensures
            final(output)@.len() == old(output)@.len(),
            forall|k: int|
                0 <= k < old(output)@.len() ==> #[trigger] final(output)@[k] == if k
                    < magnitudes_of(iq_data@).len() {
                    magnitudes_of(iq_data@)[k]
                } else {
                    old(output)@[k]
                },
    {
        let pairs: usize = iq_data.len() / 2;
        let n: usize = if pairs < output.len() {
            pairs
        } else {
            output.len()
        };
        let mut k: usize = 0;
        while k < n
            invariant
                k <= n,
                n <= iq_data@.len() / 2,
                n <= output@.len(),
                iq_data@.len() <= usize::MAX,
                output@.len() == old(output)@.len(),
                forall|j: int|
                    0 <= j < output@.len() ==> #[trigger] output@[j] == if j < k {
                        magnitudes_of(iq_data@)[j]
                    } else {
                        old(output)@[j]
                    },
            decreases n - k,
        {
            let m = self.magnitude(iq_data[k * 2], iq_data[k * 2 + 1]);
            output[k] = m;
            k = k + 1;
        }
    }
}

impl Default for MagnitudeTable {
    fn default() -> (t: MagnitudeTable)
        ensures
            t.is_complete(),
    {
        MagnitudeTable::new()
    }
}

} // verus!
