//! Display smoothing and decibel-to-amplitude conversion.
//!
//! The smoother is a single-pole exponential moving average over milli-dB
//! levels, `smoothed' = smoothed + alpha * (raw - smoothed)`, with the
//! coefficient `alpha` carried as a rational `alpha_num / alpha_den` in
//! (0, 1]. It exists purely to stabilise the displayed meter; the threshold
//! detector never looks at it.

use vstd::prelude::*;
use vstd::arithmetic::div_mod::{
    lemma_basic_div, lemma_div_by_self, lemma_div_is_ordered, lemma_div_multiples_vanish,
    lemma_div_pos_is_pos,
};
use vstd::arithmetic::mul::{lemma_mul_inequality, lemma_mul_upper_bound};

verus! {

/// 10 raised to `k`.
pub open spec fn spec_ten_pow(k: nat) -> int
    decreases k,
{
    if k == 0 {
        1
    } else {
        10 * spec_ten_pow((k - 1) as nat)
    }
}

/// `10^(-r/20)` in millionths, rounded to nearest, for `r` in `0..20`: the
/// fractional part of a decibel-to-amplitude conversion, tabulated per
/// whole decibel.
pub open spec fn spec_attenuation_micro(r: int) -> int {
    if r == 0 { 1000000 }
    else if r == 1 { 891251 }
    else if r == 2 { 794328 }
    else if r == 3 { 707946 }
    else if r == 4 { 630957 }
    else if r == 5 { 562341 }
    else if r == 6 { 501187 }
    else if r == 7 { 446684 }
    else if r == 8 { 398107 }
    else if r == 9 { 354813 }
    else if r == 10 { 316228 }
    else if r == 11 { 281838 }
    else if r == 12 { 251189 }
    else if r == 13 { 223872 }
    else if r == 14 { 199526 }
    else if r == 15 { 177828 }
    else if r == 16 { 158489 }
    else if r == 17 { 141254 }
    else if r == 18 { 125893 }
    else { 112202 }
}

/// The linear amplitude equivalent of a whole-decibel value, in millionths
/// of full scale: `10^(db/20) * 10^6`, split as `10^(-r/20) / 10^q` with
/// `-db == 20q + r`, the final division rounding down.
pub open spec fn spec_db_to_amplitude(db: int) -> int {
    spec_attenuation_micro((-db) % 20) / spec_ten_pow((((-db) / 20) as nat))
}

/// Convert a whole-decibel level (in `[-120, 0]`) to its linear amplitude
/// in millionths of full scale: `-20` dB gives `100000` (a tenth of full
/// scale), `0` dB gives `1000000` (full scale).
pub fn db_to_amplitude(db: i32) -> (amp: u32)
    requires
        -120 <= db <= 0,
    ensures
        amp == spec_db_to_amplitude(db as int),
        1 <= amp <= 1000000,
{
    let neg: u32 = (-db) as u32;
    let q: u32 = neg / 20;
    let r: u32 = neg % 20;
    let frac: u32 = if r == 0 { 1000000 }
        else if r == 1 { 891251 }
        else if r == 2 { 794328 }
        else if r == 3 { 707946 }
        else if r == 4 { 630957 }
        else if r == 5 { 562341 }
        else if r == 6 { 501187 }
        else if r == 7 { 446684 }
        else if r == 8 { 398107 }
        else if r == 9 { 354813 }
        else if r == 10 { 316228 }
        else if r == 11 { 281838 }
        else if r == 12 { 251189 }
        else if r == 13 { 223872 }
        else if r == 14 { 199526 }
        else if r == 15 { 177828 }
        else if r == 16 { 158489 }
        else if r == 17 { 141254 }
        else if r == 18 { 125893 }
        else { 112202 };
    let scale: u32 = if q == 0 { 1 }
        else if q == 1 { 10 }
        else if q == 2 { 100 }
        else if q == 3 { 1000 }
        else if q == 4 { 10000 }
        else if q == 5 { 100000 }
        else { 1000000 };
    proof {
        assert(q <= 6);
        assert(frac == spec_attenuation_micro(r as int));
        assert(spec_ten_pow(0) == 1);
        assert(spec_ten_pow(1) == 10);
        assert(spec_ten_pow(2) == 100);
        assert(spec_ten_pow(3) == 1000);
        assert(spec_ten_pow(4) == 10000);
        assert(spec_ten_pow(5) == 100000);
        assert(spec_ten_pow(6) == 1000000);
        assert(scale == spec_ten_pow(q as nat));
        if q == 6 {
            assert(r == 0);
        }
        lemma_div_is_ordered(frac as int, 1000000, scale as int);
        lemma_div_is_ordered(112202, frac as int, scale as int);
        if scale <= 100000 {
            vstd::arithmetic::div_mod::lemma_div_is_ordered_by_denominator(
                112202,
                scale as int,
                100000,
            );
        }
        assert(1000000int / spec_ten_pow(6) == 1);
        assert(112202int / 100000int == 1);
        assert(1000000int / 1int == 1000000);
    }
    frac / scale
}

/// Levels handled by the smoother stay within this many milli-dB of zero.
pub const LEVEL_BOUND_MDB: i32 = 1_000_000;

/// Smoothing coefficient denominators stay within this bound.
pub const ALPHA_BOUND: u32 = 1_000_000;

/// One step of the exponential moving average on integer milli-dB values:
/// the smoothed value moves toward `raw` by `alpha_num / alpha_den` of the
/// gap, the fraction rounded toward zero.
pub open spec fn spec_smooth_step(s: int, raw: int, num: int, den: int) -> int {
    if raw >= s {
        s + (num * (raw - s)) / den
    } else {
        s - (num * (s - raw)) / den
    }
}

/// `spec_smooth_step` iterated `k` times from `s`, feeding the same `raw`.
pub open spec fn spec_smooth_iter(s: int, raw: int, num: int, den: int, k: nat) -> int
    decreases k,
{
    if k == 0 {
        s
    } else {
        spec_smooth_iter(spec_smooth_step(s, raw, num, den), raw, num, den, (k - 1) as nat)
    }
}

/// Exponential-moving-average filter over milli-dB levels.
pub struct Smoother {
    /// Numerator of the smoothing coefficient.
    pub alpha_num: u32,
    /// Denominator of the smoothing coefficient.
    pub alpha_den: u32,
    /// The most recent smoothed level, in milli-dB.
    pub smoothed: i32,
}

impl Smoother {
    /// The coefficient is a fraction in (0, 1] and the held level is in range.
    pub open spec fn wf(self) -> bool {
        &&& 1 <= self.alpha_num <= self.alpha_den <= ALPHA_BOUND
        &&& -LEVEL_BOUND_MDB <= self.smoothed <= LEVEL_BOUND_MDB
    }

    /// A fresh smoother starting from the silence floor.
    pub fn new(alpha_num: u32, alpha_den: u32, floor_mdb: i32) -> (r: Smoother)
        requires
            1 <= alpha_num <= alpha_den <= ALPHA_BOUND,
            -LEVEL_BOUND_MDB <= floor_mdb <= LEVEL_BOUND_MDB,
        ensures
            r.wf(),
            r.alpha_num == alpha_num,
            r.alpha_den == alpha_den,
            r.smoothed == floor_mdb,
    {
        Smoother { alpha_num, alpha_den, smoothed: floor_mdb }
    }

    /// Feed one raw level; returns (and stores) the next smoothed level.
    pub fn step(&mut self, raw: i32) -> (r: i32)
        requires
            old(self).wf(),
            -LEVEL_BOUND_MDB <= raw <= LEVEL_BOUND_MDB,
        ensures
            final(self).wf(),
            final(self).alpha_num == old(self).alpha_num,
            final(self).alpha_den == old(self).alpha_den,
            final(self).smoothed == spec_smooth_step(
                old(self).smoothed as int,
                raw as int,
                old(self).alpha_num as int,
                old(self).alpha_den as int,
            ),
            r == final(self).smoothed,
    {
        proof {
            lemma_smooth_step_between(
                self.smoothed as int,
                raw as int,
                self.alpha_num as int,
                self.alpha_den as int,
            );
        }
        if raw >= self.smoothed {
            let diff: u64 = (raw - self.smoothed) as u64;
            proof {
                lemma_mul_upper_bound(
                    self.alpha_num as int,
                    ALPHA_BOUND as int,
                    diff as int,
                    2 * LEVEL_BOUND_MDB as int,
                );
            }
            let delta: u64 = (self.alpha_num as u64 * diff) / (self.alpha_den as u64);
            let next: i32 = self.smoothed + (delta as i32);
            self.smoothed = next;
            next
        } else {
            let diff: u64 = (self.smoothed - raw) as u64;
            proof {
                lemma_mul_upper_bound(
                    self.alpha_num as int,
                    ALPHA_BOUND as int,
                    diff as int,
                    2 * LEVEL_BOUND_MDB as int,
                );
            }
            let delta: u64 = (self.alpha_num as u64 * diff) / (self.alpha_den as u64);
            let next: i32 = self.smoothed - (delta as i32);
            self.smoothed = next;
            next
        }
    }
}

/// One smoothing step never overshoots: the result stays between the old
/// smoothed value and the raw value.
pub proof fn lemma_smooth_step_between(s: int, raw: int, num: int, den: int)
    requires
        1 <= num <= den,
    ensures
        raw >= s ==> s <= spec_smooth_step(s, raw, num, den) <= raw,
        raw < s ==> raw <= spec_smooth_step(s, raw, num, den) <= s,
{
    if raw >= s {
        let d = raw - s;
        lemma_mul_inequality(num, den, d);
        lemma_div_is_ordered(num * d, den * d, den);
        lemma_div_multiples_vanish(d, den);
        lemma_div_is_ordered(0, num * d, den);
        assert((num * d) / den <= d);
        assert(0 <= (num * d) / den);
    } else {
        let d = s - raw;
        lemma_mul_inequality(num, den, d);
        lemma_div_is_ordered(num * d, den * d, den);
        lemma_div_multiples_vanish(d, den);
        lemma_div_is_ordered(0, num * d, den);
    }
}

/// Once the gap to the raw level is below `den / num`, a step changes
/// nothing: the smoother has converged as far as integer arithmetic allows.
pub proof fn lemma_smooth_step_fixed(s: int, raw: int, num: int, den: int)
    requires
        1 <= num <= den,
        num * (if raw >= s { raw - s } else { s - raw }) < den,
    ensures
        spec_smooth_step(s, raw, num, den) == s,
{
    if raw >= s {
        let d = raw - s;
        lemma_mul_inequality(0, num, d);
        lemma_basic_div(num * d, den);
    } else {
        let d = s - raw;
        lemma_mul_inequality(0, num, d);
        lemma_basic_div(num * d, den);
    }
}

/// While the gap to the raw level is at least `den / num`, each step moves
/// the smoothed value strictly closer to the raw level.
pub proof fn lemma_smooth_step_progress(s: int, raw: int, num: int, den: int)
    requires
        1 <= num <= den,
        num * (if raw >= s { raw - s } else { s - raw }) >= den,
    ensures
        raw >= s ==> s < spec_smooth_step(s, raw, num, den) <= raw,
        raw < s ==> raw <= spec_smooth_step(s, raw, num, den) < s,
{
    lemma_smooth_step_between(s, raw, num, den);
    if raw >= s {
        let d = raw - s;
        lemma_div_by_self(den);
        lemma_div_is_ordered(den, num * d, den);
        assert((num * d) / den >= 1);
    } else {
        let d = s - raw;
        lemma_div_by_self(den);
        lemma_div_is_ordered(den, num * d, den);
        assert((num * d) / den >= 1);
    }
}

/// A converged smoother stays converged: iterating from a value already
/// within `den / num` of the raw level returns that value unchanged.
pub proof fn lemma_smooth_iter_stable(s: int, raw: int, num: int, den: int, k: nat)
    requires
        1 <= num <= den,
        num * (if raw >= s { raw - s } else { s - raw }) < den,
    ensures
        spec_smooth_iter(s, raw, num, den, k) == s,
    decreases k,
{
    if k > 0 {
        lemma_smooth_step_fixed(s, raw, num, den);
        lemma_smooth_iter_stable(s, raw, num, den, (k - 1) as nat);
    }
}

/// Convergence of the smoother: feeding the same raw level `raw` into the
/// filter from any starting value `s`, the smoothed value is within
/// `den / num` of `raw` (for the default 3/10 coefficient: within 3 milli-dB,
/// i.e. 0.003 dB) after at most `|raw - s|` steps, and stays there.
pub proof fn lemma_smoother_convergence(s: int, raw: int, num: int, den: int, k: nat)
    requires
        1 <= num <= den,
        k >= (if raw >= s { raw - s } else { s - raw }),
    ensures
        num * (
            if raw >= spec_smooth_iter(s, raw, num, den, k) {
                raw - spec_smooth_iter(s, raw, num, den, k)
            } else {
                spec_smooth_iter(s, raw, num, den, k) - raw
            }
        ) < den,
    decreases k,
{
    let gap = if raw >= s { raw - s } else { s - raw };
    if num * gap < den {
        lemma_smooth_iter_stable(s, raw, num, den, k);
    } else {
        if gap < 1 {
            lemma_mul_inequality(gap, 0, num);
            assert(false);
        }
        let s1 = spec_smooth_step(s, raw, num, den);
        lemma_smooth_step_progress(s, raw, num, den);
        let gap1 = if raw >= s1 { raw - s1 } else { s1 - raw };
        assert(gap1 < gap);
        assert(k >= 1);
        lemma_smoother_convergence(s1, raw, num, den, (k - 1) as nat);
        assert(spec_smooth_iter(s, raw, num, den, k)
            == spec_smooth_iter(s1, raw, num, den, (k - 1) as nat));
    }
}

} // verus!
