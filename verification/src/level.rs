//! Peak level metering: a buffer of sample magnitudes to a decibel level.
//!
//! A buffer arrives as micro-amplitudes: absolute sample values scaled so
//! that full scale (amplitude 1.0) is 1_000_000. The meter scans for the
//! peak and converts it to milli-dB (`20 * log10(peak)`, thousandths of a
//! decibel) in pure integer arithmetic: the peak is normalised into
//! `[10^6, 10^7)` by decade shifts, and the fractional part of its base-10
//! logarithm is then extracted bit by bit, squaring the normalised value
//! sixteen times. A silent buffer reports exactly the configured floor, and
//! no reading is below the floor.

use vstd::prelude::*;
use vstd::arithmetic::div_mod::{lemma_div_is_ordered, lemma_div_pos_is_pos};
use vstd::arithmetic::mul::{lemma_mul_inequality, lemma_mul_upper_bound};
use crate::smoothing::spec_ten_pow;

verus! {

/// Full scale (amplitude 1.0) in micro-amplitude units.
pub const MICRO_FULL_SCALE: u32 = 1_000_000;

/// 2 raised to `k`.
pub open spec fn spec_two_pow(k: nat) -> int
    decreases k,
{
    if k == 0 {
        1
    } else {
        2 * spec_two_pow((k - 1) as nat)
    }
}

/// The largest value in a buffer of micro-amplitudes (0 when empty).
pub open spec fn spec_peak(s: Seq<u32>) -> int
    decreases s.len(),
{
    if s.len() == 0 {
        0
    } else if s.last() as int >= spec_peak(s.drop_last()) {
        s.last() as int
    } else {
        spec_peak(s.drop_last())
    }
}

/// How many decade shifts (at most `fuel`) bring `p` up to `10^6`.
pub open spec fn spec_decades(p: int, fuel: nat) -> nat
    decreases fuel,
{
    if fuel == 0 {
        0
    } else if p >= 1000000 {
        0
    } else {
        (1 + spec_decades(p * 10, (fuel - 1) as nat)) as nat
    }
}

/// `p` shifted up by `spec_decades(p, fuel)` decades.
pub open spec fn spec_norm(p: int, fuel: nat) -> int
    decreases fuel,
{
    if fuel == 0 {
        p
    } else if p >= 1000000 {
        p
    } else {
        spec_norm(p * 10, (fuel - 1) as nat)
    }
}

/// The first `k` binary-fraction digits of `log10(x / 10^6)` for `x` in
/// `[10^6, 10^7)`, most significant first, packed into one integer:
/// squaring a number doubles its logarithm, so after a fixed-point square
/// the value has passed `10^7` exactly when the next binary digit of the
/// logarithm's fraction is 1.
pub open spec fn spec_log_frac_bits(x: int, k: nat) -> int
    decreases k,
{
    if k == 0 {
        0
    } else {
        let y = (x * x) / 1000000;
        if y >= 10000000 {
            spec_two_pow((k - 1) as nat) + spec_log_frac_bits(y / 10, (k - 1) as nat)
        } else {
            spec_log_frac_bits(y, (k - 1) as nat)
        }
    }
}

/// `20 * log10(p / 10^6)` in milli-dB for a nonzero peak `p`, to the
/// meter's fixed-point precision: sixteen fraction bits of the logarithm,
/// scaled to 20000 milli-dB per decade and rounded toward zero.
pub open spec fn spec_mdb_of_peak(p: int) -> int {
    (20000 * spec_log_frac_bits(spec_norm(p, 6), 16)) / 65536 - 20000 * spec_decades(p, 6)
}

/// The level reported for a buffer: the floor for silence, otherwise the
/// peak's milli-dB value clamped up to the floor.
pub open spec fn spec_level(s: Seq<u32>, floor_mdb: int) -> int {
    if spec_peak(s) == 0 {
        floor_mdb
    } else if spec_mdb_of_peak(spec_peak(s)) >= floor_mdb {
        spec_mdb_of_peak(spec_peak(s))
    } else {
        floor_mdb
    }
}

/// Pure peak meter: holds only the configured silence floor.
pub struct LevelMeter {
    /// The minimum reportable level, substituted for silence, in milli-dB.
    pub floor_mdb: i32,
}

/// Powers of two up to `2^16`, as needed by the bit-extraction loop.
proof fn lemma_two_pow_16()
    ensures
        spec_two_pow(0) == 1,
        spec_two_pow(16) == 65536,
        forall|k: nat| k < 16 ==> #[trigger] spec_two_pow((k + 1) as nat) == 2 * spec_two_pow(k),
{
    assert forall|k: nat| k < 16 implies #[trigger] spec_two_pow((k + 1) as nat) == 2 * spec_two_pow(
        k,
    ) by {
        assert(spec_two_pow((k + 1) as nat) == 2 * spec_two_pow(k));
    }
    assert(spec_two_pow(0) == 1);
    assert(spec_two_pow(1) == 2);
    assert(spec_two_pow(2) == 4);
    assert(spec_two_pow(3) == 8);
    assert(spec_two_pow(4) == 16);
    assert(spec_two_pow(5) == 32);
    assert(spec_two_pow(6) == 64);
    assert(spec_two_pow(7) == 128);
    assert(spec_two_pow(8) == 256);
    assert(spec_two_pow(9) == 512);
    assert(spec_two_pow(10) == 1024);
    assert(spec_two_pow(11) == 2048);
    assert(spec_two_pow(12) == 4096);
    assert(spec_two_pow(13) == 8192);
    assert(spec_two_pow(14) == 16384);
    assert(spec_two_pow(15) == 32768);
    assert(spec_two_pow(16) == 65536);
}

/// Powers of two are at least one.
proof fn lemma_two_pow_pos(k: nat)
    ensures
        spec_two_pow(k) >= 1,
    decreases k,
{
    if k > 0 {
        lemma_two_pow_pos((k - 1) as nat);
    }
}

/// Powers of two grow with the exponent.
proof fn lemma_two_pow_monotone(a: nat, b: nat)
    requires
        a <= b,
    ensures
        spec_two_pow(a) <= spec_two_pow(b),
    decreases b,
{
    if a < b {
        lemma_two_pow_monotone(a, (b - 1) as nat);
        lemma_two_pow_pos((b - 1) as nat);
        assert(spec_two_pow(b) == 2 * spec_two_pow((b - 1) as nat));
    }
}

/// A peak exactly at full scale has no fractional logarithm digits: its
/// level is exactly 0 dB.
proof fn lemma_frac_bits_at_full(k: nat)
    ensures
        spec_log_frac_bits(1000000, k) == 0,
    decreases k,
{
    if k > 0 {
        assert((1000000int * 1000000) / 1000000 == 1000000) by {
            vstd::arithmetic::div_mod::lemma_div_multiples_vanish(1000000int, 1000000);
        }
        lemma_frac_bits_at_full((k - 1) as nat);
    }
}

/// Shifting one more logarithm digit into the accumulator: the packed value
/// of `b` appended to `f` at weight `t`, against `f` at weight `2t`.
proof fn lemma_step_accumulate(f: int, t: int, b: int)
    ensures
        (2 * f + b) * t == f * (2 * t) + b * t,
{
    vstd::arithmetic::mul::lemma_mul_is_distributive_add_other_way(t, 2 * f, b);
    vstd::arithmetic::mul::lemma_mul_is_associative(2, f, t);
    vstd::arithmetic::mul::lemma_mul_is_associative(f, 2, t);
    vstd::arithmetic::mul::lemma_mul_is_commutative(f, 2 * t);
    vstd::arithmetic::mul::lemma_mul_is_commutative(2 * f, t);
}

/// The normalisation of a peak in `[1, 10^6]`, written out per decade: the
/// shift count, the shifted value, and its range.
proof fn lemma_normalize(p: int)
    requires
        1 <= p <= 1000000,
    ensures
        p >= 1000000 ==> spec_decades(p, 6) == 0 && spec_norm(p, 6) == p,
        100000 <= p < 1000000 ==> spec_decades(p, 6) == 1 && spec_norm(p, 6) == p * 10,
        10000 <= p < 100000 ==> spec_decades(p, 6) == 2 && spec_norm(p, 6) == p * 100,
        1000 <= p < 10000 ==> spec_decades(p, 6) == 3 && spec_norm(p, 6) == p * 1000,
        100 <= p < 1000 ==> spec_decades(p, 6) == 4 && spec_norm(p, 6) == p * 10000,
        10 <= p < 100 ==> spec_decades(p, 6) == 5 && spec_norm(p, 6) == p * 100000,
        1 <= p < 10 ==> spec_decades(p, 6) == 6 && spec_norm(p, 6) == p * 1000000,
        1000000 <= spec_norm(p, 6) < 10000000,
        spec_decades(p, 6) <= 6,
{
    if p >= 1000000 {
    } else if p >= 100000 {
        assert(spec_decades(p, 6) == 1 + spec_decades(p * 10, 5));
        assert(spec_norm(p, 6) == spec_norm(p * 10, 5));
    } else if p >= 10000 {
        assert(spec_decades(p, 6) == 1 + spec_decades(p * 10, 5));
        assert(spec_decades(p * 10, 5) == 1 + spec_decades(p * 100, 4));
        assert(spec_norm(p, 6) == spec_norm(p * 10, 5));
        assert(spec_norm(p * 10, 5) == spec_norm(p * 100, 4));
    } else if p >= 1000 {
        assert(spec_decades(p, 6) == 1 + spec_decades(p * 10, 5));
        assert(spec_decades(p * 10, 5) == 1 + spec_decades(p * 100, 4));
        assert(spec_decades(p * 100, 4) == 1 + spec_decades(p * 1000, 3));
        assert(spec_norm(p, 6) == spec_norm(p * 10, 5));
        assert(spec_norm(p * 10, 5) == spec_norm(p * 100, 4));
        assert(spec_norm(p * 100, 4) == spec_norm(p * 1000, 3));
    } else if p >= 100 {
        assert(spec_decades(p, 6) == 1 + spec_decades(p * 10, 5));
        assert(spec_decades(p * 10, 5) == 1 + spec_decades(p * 100, 4));
        assert(spec_decades(p * 100, 4) == 1 + spec_decades(p * 1000, 3));
        assert(spec_decades(p * 1000, 3) == 1 + spec_decades(p * 10000, 2));
        assert(spec_norm(p, 6) == spec_norm(p * 10, 5));
        assert(spec_norm(p * 10, 5) == spec_norm(p * 100, 4));
        assert(spec_norm(p * 100, 4) == spec_norm(p * 1000, 3));
        assert(spec_norm(p * 1000, 3) == spec_norm(p * 10000, 2));
    } else if p >= 10 {
        assert(spec_decades(p, 6) == 1 + spec_decades(p * 10, 5));
        assert(spec_decades(p * 10, 5) == 1 + spec_decades(p * 100, 4));
        assert(spec_decades(p * 100, 4) == 1 + spec_decades(p * 1000, 3));
        assert(spec_decades(p * 1000, 3) == 1 + spec_decades(p * 10000, 2));
        assert(spec_decades(p * 10000, 2) == 1 + spec_decades(p * 100000, 1));
        assert(spec_norm(p, 6) == spec_norm(p * 10, 5));
        assert(spec_norm(p * 10, 5) == spec_norm(p * 100, 4));
        assert(spec_norm(p * 100, 4) == spec_norm(p * 1000, 3));
        assert(spec_norm(p * 1000, 3) == spec_norm(p * 10000, 2));
        assert(spec_norm(p * 10000, 2) == spec_norm(p * 100000, 1));
    } else {
        assert(spec_decades(p, 6) == 1 + spec_decades(p * 10, 5));
        assert(spec_decades(p * 10, 5) == 1 + spec_decades(p * 100, 4));
        assert(spec_decades(p * 100, 4) == 1 + spec_decades(p * 1000, 3));
        assert(spec_decades(p * 1000, 3) == 1 + spec_decades(p * 10000, 2));
        assert(spec_decades(p * 10000, 2) == 1 + spec_decades(p * 100000, 1));
        assert(spec_decades(p * 100000, 1) == 1 + spec_decades(p * 1000000, 0));
        assert(spec_norm(p, 6) == spec_norm(p * 10, 5));
        assert(spec_norm(p * 10, 5) == spec_norm(p * 100, 4));
        assert(spec_norm(p * 100, 4) == spec_norm(p * 1000, 3));
        assert(spec_norm(p * 1000, 3) == spec_norm(p * 10000, 2));
        assert(spec_norm(p * 10000, 2) == spec_norm(p * 100000, 1));
        assert(spec_norm(p * 100000, 1) == spec_norm(p * 1000000, 0));
    }
}

impl LevelMeter {
    /// The floor is a plausible decibel value: non-positive, within range.
    pub open spec fn wf(self) -> bool {
        -1000000 <= self.floor_mdb <= 0
    }

    /// A meter with the given silence floor (for example -60000, -60 dB).
    pub fn new(floor_mdb: i32) -> (r: LevelMeter)
        requires
            -1000000 <= floor_mdb <= 0,
        ensures
            r.wf(),
            r.floor_mdb == floor_mdb,
    {
        LevelMeter { floor_mdb }
    }

    /// Scan a buffer of micro-amplitudes and report its level in milli-dB:
    /// the floor for a silent (or empty) buffer, otherwise the peak's
    /// decibel value, never below the floor, never above 0.
    pub fn measure(&self, samples: &Vec<u32>) -> (r: i32)
        requires
            self.wf(),
            forall|i: int| 0 <= i < samples@.len() ==> samples@[i] <= MICRO_FULL_SCALE,
        ensures
            r == spec_level(samples@, self.floor_mdb as int),
            self.floor_mdb <= r <= 0,
    {
        let peak = peak_amplitude(samples);
        proof {
            lemma_peak_in_range(samples@);
        }
        if peak == 0 {
            self.floor_mdb
        } else {
            let mdb = mdb_of_peak(peak);
            if mdb >= self.floor_mdb {
                mdb
            } else {
                self.floor_mdb
            }
        }
    }
}

/// The largest micro-amplitude in the buffer (0 for an empty buffer).
pub fn peak_amplitude(samples: &Vec<u32>) -> (r: u32)
    ensures
        r == spec_peak(samples@),
{
    let mut peak: u32 = 0;
    let mut idx: usize = 0;
    while idx < samples.len()
        invariant
            idx <= samples@.len(),
            peak == spec_peak(samples@.take(idx as int)),
        decreases samples@.len() - idx,
    {
        let s = samples[idx];
        proof {
            assert(samples@.take(idx as int + 1).drop_last() =~= samples@.take(idx as int));
            assert(samples@.take(idx as int + 1).last() == samples@[idx as int]);
        }
        if s > peak {
            peak = s;
        }
        idx = idx + 1;
    }
    proof {
        assert(samples@.take(samples@.len() as int) =~= samples@);
    }
    peak
}

/// A buffer of valid micro-amplitudes has its peak in `[0, 10^6]`.
pub proof fn lemma_peak_in_range(s: Seq<u32>)
    requires
        forall|i: int| 0 <= i < s.len() ==> s[i] <= MICRO_FULL_SCALE,
    ensures
        0 <= spec_peak(s) <= MICRO_FULL_SCALE,
    decreases s.len(),
{
    if s.len() > 0 {
        assert(s.last() == s[s.len() - 1]);
        lemma_peak_in_range(s.drop_last());
    }
}

/// Convert a nonzero peak micro-amplitude to milli-dB below full scale.
fn mdb_of_peak(peak: u32) -> (r: i32)
    requires
        1 <= peak <= MICRO_FULL_SCALE,
    ensures
        r == spec_mdb_of_peak(peak as int),
        -120000 <= r <= 0,
{
    proof {
        lemma_normalize(peak as int);
        lemma_two_pow_16();
    }
    let p64: u64 = peak as u64;
    let (e, x): (u32, u64) = if peak >= 1000000 {
        (0, p64)
    } else if peak >= 100000 {
        (1, p64 * 10)
    } else if peak >= 10000 {
        (2, p64 * 100)
    } else if peak >= 1000 {
        (3, p64 * 1000)
    } else if peak >= 100 {
        (4, p64 * 10000)
    } else if peak >= 10 {
        (5, p64 * 100000)
    } else {
        (6, p64 * 1000000)
    };
    let ghost x0 = x as int;
    let mut x2: u64 = x;
    let mut frac: u64 = 0;
    let mut i: usize = 0;
    while i < 16
        invariant
            i <= 16,
            1000000 <= x2 < 10000000,
            0 <= frac < spec_two_pow(i as nat),
            spec_log_frac_bits(x0, 16) == frac * spec_two_pow((16 - i) as nat)
                + spec_log_frac_bits(x2 as int, (16 - i) as nat),
        decreases 16 - i,
    {
        proof {
            lemma_two_pow_16();
            lemma_two_pow_monotone(i as nat, 15);
            lemma_mul_upper_bound(x2 as int, 9999999, x2 as int, 9999999);
            lemma_mul_inequality(1000000, x2 as int, x2 as int);
            lemma_div_is_ordered(1000000 * (x2 as int), x2 as int * x2 as int, 1000000);
            lemma_div_is_ordered(x2 as int * x2 as int, 9999999int * 9999999, 1000000);
            assert((1000000 * (x2 as int)) / 1000000 == x2 as int) by {
                vstd::arithmetic::div_mod::lemma_div_multiples_vanish(x2 as int, 1000000);
            }
        }
        let y: u64 = (x2 * x2) / 1000000;
        let ghost f_old = frac as int;
        let ghost rem = (16 - i) as nat;
        proof {
            assert(spec_log_frac_bits(x2 as int, rem) == (
                if y as int >= 10000000 {
                    spec_two_pow((rem - 1) as nat) + spec_log_frac_bits(
                        y as int / 10,
                        (rem - 1) as nat,
                    )
                } else {
                    spec_log_frac_bits(y as int, (rem - 1) as nat)
                }
            ));
            assert(spec_two_pow(rem) == 2 * spec_two_pow((rem - 1) as nat));
        }
        if y >= 10000000 {
            proof {
                lemma_div_is_ordered(10000000, y as int, 10);
                lemma_div_is_ordered(y as int, 99999980, 10);
                lemma_step_accumulate(f_old, spec_two_pow((rem - 1) as nat), 1);
            }
            x2 = y / 10;
            frac = frac * 2 + 1;
        } else {
            proof {
                lemma_step_accumulate(f_old, spec_two_pow((rem - 1) as nat), 0);
            }
            x2 = y;
            frac = frac * 2;
        }
        i = i + 1;
        proof {
            assert(spec_two_pow(i as nat) == 2 * spec_two_pow((i - 1) as nat));
        }
    }
    proof {
        lemma_two_pow_16();
        assert(spec_log_frac_bits(x2 as int, 0) == 0);
        assert(frac == spec_log_frac_bits(x0, 16));
        lemma_mul_inequality(frac as int, 65535, 20000);
        lemma_div_is_ordered(20000 * (frac as int), 20000int * 65535, 65536);
        lemma_div_is_ordered(0, 20000 * (frac as int), 65536);
        if e == 0 {
            lemma_frac_bits_at_full(16);
        }
    }
    let scaled: u64 = (20000 * frac) / 65536;
    let r: i32 = (scaled as i32) - 20000 * (e as i32);
    r
}


/// An all-zero buffer has peak zero.
proof fn lemma_peak_of_silence(s: Seq<u32>)
    requires
        forall|i: int| 0 <= i < s.len() ==> s[i] == 0,
    ensures
        spec_peak(s) == 0,
    decreases s.len(),
{
    if s.len() > 0 {
        assert(s.last() == s[s.len() - 1]);
        lemma_peak_of_silence(s.drop_last());
    }
}

/// Silence law: a buffer of all-zero samples (of any length, including
/// empty) reports exactly the configured floor.
pub proof fn lemma_silence_is_floor(s: Seq<u32>, floor_mdb: int)
    requires
        forall|i: int| 0 <= i < s.len() ==> s[i] == 0,
    ensures
        spec_level(s, floor_mdb) == floor_mdb,
{
    lemma_peak_of_silence(s);
}

/// A buffer that is nowhere louder than another has no larger peak.
pub proof fn lemma_peak_monotone(a: Seq<u32>, b: Seq<u32>)
    requires
        a.len() == b.len(),
        forall|i: int| 0 <= i < a.len() ==> a[i] <= b[i],
    ensures
        spec_peak(a) <= spec_peak(b),
    decreases a.len(),
{
    if a.len() > 0 {
        assert(a.last() == a[a.len() - 1]);
        assert(b.last() == b[b.len() - 1]);
        lemma_peak_monotone(a.drop_last(), b.drop_last());
    }
}

/// The packed logarithm digits are non-negative and below `2^k`.
proof fn lemma_frac_bits_bound(x: int, k: nat)
    requires
        0 <= x,
    ensures
        0 <= spec_log_frac_bits(x, k) < spec_two_pow(k),
    decreases k,
{
    if k > 0 {
        vstd::arithmetic::mul::lemma_mul_nonnegative(x, x);
        lemma_div_pos_is_pos(x * x, 1000000);
        let y = (x * x) / 1000000;
        if y >= 10000000 {
            lemma_div_pos_is_pos(y, 10);
            lemma_frac_bits_bound(y / 10, (k - 1) as nat);
        } else {
            lemma_frac_bits_bound(y, (k - 1) as nat);
        }
        assert(spec_two_pow(k) == 2 * spec_two_pow((k - 1) as nat));
    }
}

/// A larger normalised value has no smaller logarithm digits.
proof fn lemma_frac_bits_monotone(x1: int, x2: int, k: nat)
    requires
        0 <= x1 <= x2,
    ensures
        spec_log_frac_bits(x1, k) <= spec_log_frac_bits(x2, k),
    decreases k,
{
    if k > 0 {
        lemma_mul_inequality(x1, x2, x1);
        lemma_mul_inequality(x1, x2, x2);
        vstd::arithmetic::mul::lemma_mul_is_commutative(x2, x1);
        assert(x1 * x1 <= x2 * x2);
        lemma_div_is_ordered(x1 * x1, x2 * x2, 1000000);
        vstd::arithmetic::mul::lemma_mul_nonnegative(x1, x1);
        lemma_div_pos_is_pos(x1 * x1, 1000000);
        let y1 = (x1 * x1) / 1000000;
        let y2 = (x2 * x2) / 1000000;
        if y1 >= 10000000 && y2 >= 10000000 {
            lemma_div_is_ordered(y1, y2, 10);
            lemma_div_pos_is_pos(y1, 10);
            lemma_frac_bits_monotone(y1 / 10, y2 / 10, (k - 1) as nat);
        } else if y1 < 10000000 && y2 >= 10000000 {
            lemma_frac_bits_bound(y1, (k - 1) as nat);
            lemma_div_pos_is_pos(y2, 10);
            lemma_frac_bits_bound(y2 / 10, (k - 1) as nat);
        } else {
            lemma_frac_bits_monotone(y1, y2, (k - 1) as nat);
        }
    }
}

/// A quieter peak needs at least as many decade shifts.
proof fn lemma_decades_antitone(p1: int, p2: int, fuel: nat)
    requires
        1 <= p1 <= p2,
    ensures
        spec_decades(p1, fuel) >= spec_decades(p2, fuel),
    decreases fuel,
{
    if fuel > 0 && p1 < 1000000 && p2 < 1000000 {
        lemma_decades_antitone(p1 * 10, p2 * 10, (fuel - 1) as nat);
    }
}

/// Ten to any power is at least one.
proof fn lemma_ten_pow_pos(k: nat)
    ensures
        spec_ten_pow(k) >= 1,
    decreases k,
{
    if k > 0 {
        lemma_ten_pow_pos((k - 1) as nat);
    }
}

/// Normalisation is exactly a shift: the normalised value is the peak times
/// ten to the number of decades counted for it.
proof fn lemma_norm_shape(p: int, fuel: nat)
    ensures
        spec_norm(p, fuel) == p * spec_ten_pow(spec_decades(p, fuel)),
    decreases fuel,
{
    if fuel == 0 || p >= 1000000 {
        assert(spec_ten_pow(0) == 1);
    } else {
        lemma_norm_shape(p * 10, (fuel - 1) as nat);
        let d = spec_decades(p * 10, (fuel - 1) as nat);
        assert(spec_ten_pow((d + 1) as nat) == 10 * spec_ten_pow(d));
        vstd::arithmetic::mul::lemma_mul_is_associative(p, 10, spec_ten_pow(d));
    }
}

/// The fixed-point decibel conversion is monotone over peaks.
pub proof fn lemma_mdb_of_peak_monotone(p1: int, p2: int)
    requires
        1 <= p1 <= p2 <= 1000000,
    ensures
        spec_mdb_of_peak(p1) <= spec_mdb_of_peak(p2),
{
    lemma_two_pow_16();
    let d1 = spec_decades(p1, 6);
    let d2 = spec_decades(p2, 6);
    lemma_decades_antitone(p1, p2, 6);
    lemma_normalize(p1);
    lemma_normalize(p2);
    let n1 = spec_norm(p1, 6);
    let n2 = spec_norm(p2, 6);
    let b1 = spec_log_frac_bits(n1, 16);
    let b2 = spec_log_frac_bits(n2, 16);
    lemma_frac_bits_bound(n1, 16);
    lemma_frac_bits_bound(n2, 16);
    lemma_div_is_ordered(0, 20000 * b1, 65536);
    lemma_div_is_ordered(0, 20000 * b2, 65536);
    lemma_mul_inequality(b1, 65535, 20000);
    lemma_mul_inequality(b2, 65535, 20000);
    vstd::arithmetic::mul::lemma_mul_is_commutative(b1, 20000);
    vstd::arithmetic::mul::lemma_mul_is_commutative(b2, 20000);
    lemma_div_is_ordered(20000 * b1, 20000int * 65535, 65536);
    lemma_div_is_ordered(20000 * b2, 20000int * 65535, 65536);
    if d1 == d2 {
        lemma_norm_shape(p1, 6);
        lemma_norm_shape(p2, 6);
        lemma_ten_pow_pos(d1);
        lemma_mul_inequality(p1, p2, spec_ten_pow(d1));
        vstd::arithmetic::mul::lemma_mul_is_commutative(p1, spec_ten_pow(d1));
        vstd::arithmetic::mul::lemma_mul_is_commutative(p2, spec_ten_pow(d1));
        assert(n1 <= n2);
        vstd::arithmetic::mul::lemma_mul_nonnegative(p1, spec_ten_pow(d1));
        lemma_frac_bits_monotone(n1, n2, 16);
        lemma_mul_inequality(b1, b2, 20000);
        vstd::arithmetic::mul::lemma_mul_is_commutative(b1, 20000);
        vstd::arithmetic::mul::lemma_mul_is_commutative(b2, 20000);
        lemma_div_is_ordered(20000 * b1, 20000 * b2, 65536);
    } else {
        assert(d1 >= d2 + 1);
    }
}

/// Monotone peak law: if one buffer is nowhere louder than another of the
/// same length, its reported level is no higher, whatever the floor.
pub proof fn lemma_level_monotone(a: Seq<u32>, b: Seq<u32>, floor_mdb: int)
    requires
        a.len() == b.len(),
        forall|i: int| 0 <= i < a.len() ==> a[i] <= b[i],
        forall|i: int| 0 <= i < b.len() ==> b[i] <= MICRO_FULL_SCALE,
    ensures
        spec_level(a, floor_mdb) <= spec_level(b, floor_mdb),
{
    lemma_peak_monotone(a, b);
    lemma_peak_in_range(b);
    let pa = spec_peak(a);
    let pb = spec_peak(b);
    if pa > 0 {
        lemma_mdb_of_peak_monotone(pa, pb);
    }
}

} // verus!
