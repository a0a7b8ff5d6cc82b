//! Bit-encoded per-level status of one reading.
//!
//! A 64-bit set: bit `i` (for levels `0..=30`) is the warning bit of level
//! `i`, bit `32 + i` is the error bit of level `i`, and bit 31 is the
//! sentinel that marks the reading globally invalid (set by the time-range
//! override). Warning bits record that a check failed at a level; error
//! bits record that the failing level was configured to invalidate data.

use vstd::prelude::*;

verus! {

/// Bit index of the sentinel marking a reading globally invalid.
pub const INVALID_BIT: u64 = 31;

/// Distance from a level's warning bit to its error bit.
pub const ERROR_SHIFT: u64 = 32;

/// Largest level number the flag layout can record.
pub const MAX_LEVEL: u64 = 30;

/// True when bit `i` of `bits` is set.
pub open spec fn bit_set(bits: u64, i: u64) -> bool {
    bits & (1u64 << i) != 0
}

/// Accumulated pass/fail status of the checks run on one reading.
#[derive(Debug, Clone, Copy, PartialEq, Eq, Structural)]
pub struct QCFlag {
    pub bits: u64,
}

impl QCFlag {
    /// Warning bit of `level` is set: some check at that level failed.
    pub open spec fn spec_warning(self, level: u64) -> bool {
        bit_set(self.bits, level)
    }

    /// Error bit of `level` is set: that level failed with `errorflag` on.
    pub open spec fn spec_error(self, level: u64) -> bool {
        bit_set(self.bits, (ERROR_SHIFT + level) as u64)
    }

    /// The sentinel invalid bit is set.
    pub open spec fn spec_invalid(self) -> bool {
        bit_set(self.bits, INVALID_BIT)
    }

    pub fn new() -> (r: QCFlag)
        ensures
            r.bits == 0u64,
    {
        QCFlag { bits: 0u64 }
    }

    /// Sets one raw bit of the flag word.
    pub fn set_bit(&mut self, index: usize)
        requires
            index < 64,
        ensures
            final(self).bits == old(self).bits | (1u64 << (index as u64)),
    {
        self.bits = self.bits | (1u64 << (index as u64));
    }

    /// Zeroes every bit; flags never persist across readings.
    pub fn clear_all(&mut self)
        ensures
            final(self).bits == 0u64,
    {
        self.bits = 0u64;
    }

    /// Zeroes every bit, as `clear_all` does.
    pub fn clear(&mut self)
        ensures
            final(self).bits == 0u64,
    {
        self.bits = 0u64;
    }

    /// Sets the sentinel invalid bit, keeping every other bit.
    pub fn set_invalid(&mut self)
        ensures
            final(self).bits == old(self).bits | (1u64 << INVALID_BIT),
    {
        self.bits = self.bits | (1u64 << INVALID_BIT);
    }

    /// Sets the warning bit of `level`.
    pub fn set_warning(&mut self, level: usize)
        requires
            level <= MAX_LEVEL,
        ensures
            final(self).bits == old(self).bits | (1u64 << (level as u64)),
    {
        self.bits = self.bits | (1u64 << (level as u64));
    }

    /// Sets the error bit of `level`.
    pub fn set_error(&mut self, level: usize)
        requires
            level <= MAX_LEVEL,
        ensures
            final(self).bits == old(self).bits | (1u64 << (ERROR_SHIFT + level as u64)),
    {
        self.bits = self.bits | (1u64 << (ERROR_SHIFT + level as u64));
    }

    pub fn is_invalid(&self) -> (r: bool)
        ensures
            r == self.spec_invalid(),
    {
        self.bits & (1u64 << INVALID_BIT) != 0
    }

    /// The warning bits of levels `0..=30`, packed into the low word.
    pub fn warning_bits(&self) -> (r: u64)
        ensures
            r == self.bits & 0x7fff_ffffu64,
            forall|level: u64| level <= MAX_LEVEL ==> (bit_set(r, level) == self.spec_warning(level)),
    {
        proof {
            assert forall|level: u64| level <= 30 implies
                bit_set(self.bits & 0x7fff_ffffu64, level) == bit_set(self.bits, level) by {
                lemma_mask_low(self.bits, level);
            }
        }
        self.bits & 0x7fff_ffffu64
    }

    /// The error bits of levels `0..=30`, shifted down to the low word.
    pub fn error_bits(&self) -> (r: u64)
        ensures
            r == (self.bits >> ERROR_SHIFT) & 0x7fff_ffffu64,
            forall|level: u64| level <= MAX_LEVEL ==> (bit_set(r, level) == self.spec_error(level)),
    {
        proof {
            assert forall|level: u64| level <= 30 implies
                bit_set((self.bits >> 32u64) & 0x7fff_ffffu64, level) == bit_set(
                    self.bits,
                    (32 + level) as u64,
                ) by {
                lemma_shift_mask(self.bits, level);
            }
        }
        (self.bits >> ERROR_SHIFT) & 0x7fff_ffffu64
    }
}

/// Setting bit `i` leaves every bit but `i` as it was and sets bit `i`.
pub proof fn lemma_set_bit(bits: u64, i: u64, j: u64)
    requires
        i < 64,
        j < 64,
    ensures
        bit_set(bits | (1u64 << i), j) == (bit_set(bits, j) || i == j),
{
    assert(bit_set(bits | (1u64 << i), j) == (bit_set(bits, j) || i == j)) by (bit_vector)
        requires
            i < 64,
            j < 64,
    ;
}

proof fn lemma_low_eq(a: u64, b: u64, n: u64)
    requires
        n <= 63,
        forall|i: u64| i < n ==> (bit_set(a, i) == bit_set(b, i)),
    ensures
        (a & (((1u64 << n) - 1) as u64)) == (b & (((1u64 << n) - 1) as u64)),
    decreases n,
{
    if n == 0 {
        assert((a & (((1u64 << 0u64) - 1) as u64)) == (b & (((1u64 << 0u64) - 1) as u64)))
            by (bit_vector);
    } else {
        let m = (n - 1) as u64;
        lemma_low_eq(a, b, m);
        assert(bit_set(a, m) == bit_set(b, m));
        assert((a & (((1u64 << n) - 1) as u64)) == (b & (((1u64 << n) - 1) as u64)))
            by (bit_vector)
            requires
                n <= 63,
                m == (n - 1) as u64,
                (a & (((1u64 << m) - 1) as u64)) == (b & (((1u64 << m) - 1) as u64)),
                (a & (1u64 << m) != 0) == (b & (1u64 << m) != 0),
        ;
    }
}

/// Two flag words with the same bits are the same word.
pub proof fn lemma_bits_determine(a: u64, b: u64)
    requires
        forall|i: u64| i < 64 ==> (bit_set(a, i) == bit_set(b, i)),
    ensures
        a == b,
{
    lemma_low_eq(a, b, 63);
    assert(bit_set(a, 63) == bit_set(b, 63));
    assert(a == b) by (bit_vector)
        requires
            (a & (((1u64 << 63u64) - 1) as u64)) == (b & (((1u64 << 63u64) - 1) as u64)),
            (a & (1u64 << 63u64) != 0) == (b & (1u64 << 63u64) != 0),
    ;
}

/// The zero word has no bit set.
pub proof fn lemma_zero_bits(i: u64)
    requires
        i < 64,
    ensures
        !bit_set(0u64, i),
{
    assert(0u64 & (1u64 << i) == 0) by (bit_vector);
}

proof fn lemma_mask_low(bits: u64, level: u64)
    requires
        level <= 30,
    ensures
        bit_set(bits & 0x7fff_ffffu64, level) == bit_set(bits, level),
{
    assert((bits & 0x7fff_ffffu64) & (1u64 << level) == bits & (1u64 << level)) by (bit_vector)
        requires
            level <= 30,
    ;
}

proof fn lemma_shift_mask(bits: u64, level: u64)
    requires
        level <= 30,
    ensures
        bit_set((bits >> 32u64) & 0x7fff_ffffu64, level) == bit_set(bits, (32 + level) as u64),
{
    assert(((bits >> 32u64) & 0x7fff_ffffu64) & (1u64 << level) != 0 <==> bits & (1u64 << (32
        + level)) != 0) by (bit_vector)
        requires
            level <= 30,
    ;
}

} // verus!
