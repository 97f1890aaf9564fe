//! Grid time: steps, grid units, tempo, and their relation to audio samples.
use vstd::prelude::*;

verus! {

/// Grid resolution: how many steps per beat (4 = 16th notes).
pub const STEPS_PER_BEAT: usize = 4;

/// Steps in a full bar (4/4): 4 beats.
pub const BAR_STEPS: usize = 4 * STEPS_PER_BEAT;

/// Grid units in one step. The number is a product of powers of all primes up to
/// 37, so tuplets and the usual MIDI resolutions fall on whole units; and it is
/// so large that a unit, less than a trillionth of a millionth of a step, is finer
/// than what a double-precision number tells apart from a hundredth of a step on.
pub const UNITS_PER_STEP: u64 = 1_496_020_807_977_696_000;

/// Steps in a whole note (four quarters of four steps).
pub const STEPS_PER_WHOLE: u128 = 16;

/// Default tempo, in beats per minute, when nothing is loaded.
pub const DEFAULT_TEMPO: u32 = 120;

/// A position on the grid or a length: a number of steps, and a number of units
/// on top of them.
#[derive(Debug, Clone, Copy)]
pub struct Steps {
    pub whole: u64,
    pub part: u64,
}

impl View for Steps {
    type V = nat;

    /// The number of grid units.
    open spec fn view(&self) -> nat {
        (self.whole * UNITS_PER_STEP + self.part) as nat
    }
}

/// The largest number of units that is written as whole steps and a part of one.
pub open spec fn max_units() -> int {
    u64::MAX * UNITS_PER_STEP + UNITS_PER_STEP - 1
}

/// `units`, or the largest number of units when it does not fit.
pub open spec fn held_units(units: int) -> int {
    if units > max_units() {
        max_units()
    } else {
        units
    }
}

/// The contents of a list of positions.
pub open spec fn steps_views(s: Seq<Steps>) -> Seq<nat> {
    Seq::new(s.len(), |i: int| s[i]@)
}

impl Steps {
    /// A whole number of steps.
    pub fn of(whole: u64) -> (r: Steps)
        ensures
            r@ == whole * UNITS_PER_STEP,
    {
        Steps { whole, part: 0 }
    }

    /// The number of grid units.
    pub fn units(&self) -> (r: u128)
        ensures
            r == self@,
            r <= 0x14c2_f000_0000_0000_0000_0000_0000_0000,
    {
        assert(self.whole * 1_496_020_807_977_696_000 + self.part
            <= 0x14c2_f000_0000_0000_0000_0000_0000_0000);
        self.whole as u128 * UNITS_PER_STEP as u128 + self.part as u128
    }

    /// A number of grid units, the largest one when it does not fit.
    pub fn from_units(units: u128) -> (r: Steps)
        ensures
            r@ == held_units(units as int),
    {
        let whole: u128 = units / 1_496_020_807_977_696_000;
        let part: u128 = units % 1_496_020_807_977_696_000;
        if whole > u64::MAX as u128 {
            Steps { whole: u64::MAX, part: UNITS_PER_STEP - 1 }
        } else {
            Steps { whole: whole as u64, part: part as u64 }
        }
    }
}

impl PartialEq for Steps {
    /// Two positions are the same when they are the same number of units.
    fn eq(&self, other: &Steps) -> (r: bool) {
        self.units() == other.units()
    }
}

impl vstd::std_specs::cmp::PartialEqSpecImpl for Steps {
    open spec fn obeys_eq_spec() -> bool {
        true
    }

    open spec fn eq_spec(&self, other: &Steps) -> bool {
        self@ == other@
    }
}

/// A tempo of `num / den` beats (quarters) per minute.
#[derive(Debug, Clone, Copy, PartialEq, Eq, Structural)]
pub struct Tempo {
    pub num: u32,
    pub den: u32,
}

/// The length of one step in samples, as the fraction `num / den`.
#[derive(Debug, Clone, Copy, PartialEq, Eq, Structural)]
pub struct StepLength {
    pub num: u128,
    pub den: u128,
}

/// `p / d` rounded to the nearest integer, a half rounded up.
pub open spec fn nearest(p: int, d: int) -> int {
    (2 * p + d) / (2 * d)
}

/// `x`, or the largest index when `x` does not fit.
pub open spec fn capped(x: int) -> usize {
    if x > usize::MAX {
        usize::MAX
    } else {
        x as usize
    }
}

impl Tempo {
    /// The fraction has a denominator.
    pub open spec fn wf(self) -> bool {
        self.den > 0
    }

    /// The tempo, raised to one beat per minute when it is slower than that.
    pub open spec fn floored(self) -> Tempo {
        if self.num < self.den {
            Tempo { num: 1, den: 1 }
        } else {
            self
        }
    }

    /// A whole number of beats per minute.
    pub fn bpm(bpm: u32) -> (r: Tempo)
        ensures
            r == (Tempo { num: bpm, den: 1 }),
    {
        Tempo { num: bpm, den: 1 }
    }

    /// Raises a tempo below one beat per minute to one beat per minute.
    pub fn at_least_one(self) -> (r: Tempo)
        ensures
            r == self.floored(),
    {
        if self.num < self.den {
            Tempo { num: 1, den: 1 }
        } else {
            self
        }
    }

    /// Moves the tempo into `low ..= high` beats per minute.
    pub fn clamp(self, low: u32, high: u32) -> (r: Tempo)
        requires
            self.wf(),
            low <= high,
        ensures
            r == clamped_tempo(self, low, high),
    {
        let n: u64 = self.num as u64;
        let d: u64 = self.den as u64;
        assert(low * d <= 0xffff_ffff * 0xffff_ffff) by (nonlinear_arith)
            requires
                0 <= low <= 0xffff_ffff,
                0 <= d <= 0xffff_ffff,
        ;
        assert(high * d <= 0xffff_ffff * 0xffff_ffff) by (nonlinear_arith)
            requires
                0 <= high <= 0xffff_ffff,
                0 <= d <= 0xffff_ffff,
        ;
        if n < low as u64 * d {
            Tempo { num: low, den: 1 }
        } else if n > high as u64 * d {
            Tempo { num: high, den: 1 }
        } else {
            self
        }
    }
}

/// `t` moved into `low ..= high` beats per minute.
pub open spec fn clamped_tempo(t: Tempo, low: u32, high: u32) -> Tempo {
    if t.num < low * t.den {
        Tempo { num: low, den: 1 }
    } else if t.num > high * t.den {
        Tempo { num: high, den: 1 }
    } else {
        t
    }
}

/// The numerator of the step length: samples per minute, scaled by the
/// denominator of the tempo.
pub open spec fn step_num(sample_rate: usize, tempo: Tempo) -> int {
    sample_rate * 60 * tempo.floored().den
}

/// The denominator of the step length: steps per minute, scaled likewise.
pub open spec fn step_den(tempo: Tempo) -> int {
    tempo.floored().num * STEPS_PER_BEAT
}

/// The sample nearest to grid position `units`.
pub open spec fn sample_at(units: int, sample_rate: usize, tempo: Tempo) -> usize {
    capped(nearest(units * step_num(sample_rate, tempo), UNITS_PER_STEP * step_den(tempo)))
}

/// The grid position of `sample`, in units, rounded down.
pub open spec fn units_at(sample: int, sample_rate: usize, tempo: Tempo) -> int {
    if sample == 0 {
        0
    } else if step_num(sample_rate, tempo) == 0 {
        max_units()
    } else {
        held_units(sample * (UNITS_PER_STEP * step_den(tempo)) / step_num(sample_rate, tempo))
    }
}

/// The step that `sample` falls on.
pub open spec fn step_of(sample: int, sample_rate: usize, tempo: Tempo) -> usize {
    if sample == 0 {
        0
    } else if step_num(sample_rate, tempo) == 0 {
        usize::MAX
    } else {
        capped(sample * step_den(tempo) / step_num(sample_rate, tempo))
    }
}

proof fn lemma_step_bounds(sample_rate: usize, tempo: Tempo)
    requires
        tempo.wf(),
    ensures
        0 <= sample_rate * 60 * tempo.floored().den <= 0x40_0000_0000_0000_0000_0000_0000,
        0 < tempo.floored().num * 4 < 0x4_0000_0000,
        step_den(tempo) == tempo.floored().num * 4,
{
    let d = tempo.floored().den;
    assert(0 <= sample_rate * 60 * d <= 0x40_0000_0000_0000_0000_0000_0000) by (nonlinear_arith)
        requires
            0 <= sample_rate <= 0xffff_ffff_ffff_ffff,
            0 <= d <= 0xffff_ffff,
    ;
}

/// Samples per grid step at the given sample rate and tempo. A tempo below one
/// beat per minute counts as one, so the step length is always defined.
pub fn samples_per_step(sample_rate: usize, tempo: Tempo) -> (r: StepLength)
    requires
        tempo.wf(),
    ensures
        r.num == step_num(sample_rate, tempo),
        r.den == step_den(tempo),
        r.den > 0,
        tempo.num >= tempo.den ==> r.num * (tempo.num * 4) == (sample_rate * 60 * tempo.den)
            * r.den,
        tempo.num < tempo.den ==> r.num * 4 == (sample_rate * 60) * r.den,
{
    let t = tempo.at_least_one();
    proof {
        lemma_step_bounds(sample_rate, tempo);
        if tempo.num < tempo.den {
            assert(sample_rate * 60 * 1u32 == sample_rate * 60);
        }
    }
    StepLength { num: sample_rate as u128 * 60 * t.den as u128, den: t.num as u128 * 4 }
}

proof fn lemma_nearest_from_parts(p: int, d: int)
    requires
        d > 0,
        p >= 0,
    ensures
        nearest(p, d) == if p % d >= d - p % d {
            p / d + 1
        } else {
            p / d
        },
        p / d >= 0,
{
    let q = p / d;
    let r = p % d;
    assert(p == d * q + r && 0 <= r < d && q >= 0) by (nonlinear_arith)
        requires
            d > 0,
            p >= 0,
            q == p / d,
            r == p % d,
    ;
    if r >= d - r {
        assert((2 * p + d) / (2 * d) == q + 1) by (nonlinear_arith)
            requires
                d > 0,
                p == d * q + r,
                0 <= r < d,
                r >= d - r,
        ;
    } else {
        assert((2 * p + d) / (2 * d) == q) by (nonlinear_arith)
            requires
                d > 0,
                p == d * q + r,
                0 <= r < d,
                r < d - r,
        ;
    }
}

proof fn lemma_double_step(a: int, h: int, odd: int, b: int, c: int, q: int, r: int, bq: int, br: int)
    requires
        a == 2 * h + odd,
        h * b == q * c + r,
        odd * b == bq * c + br,
    ensures
        a * b == (2 * q + bq) * c + (2 * r + br),
{
    assert(a * b == 2 * (h * b) + odd * b) by (nonlinear_arith)
        requires
            a == 2 * h + odd,
    ;
    assert((2 * q + bq) * c == 2 * (q * c) + bq * c) by (nonlinear_arith);
}

proof fn lemma_quotient(p: int, q: int, c: int, r: int)
    requires
        p == q * c + r,
        0 <= r < c,
    ensures
        p / c == q,
        p % c == r,
{
    vstd::arithmetic::div_mod::lemma_fundamental_div_mod_converse(p, c, q, r);
}

/// Quotient and remainder of `a * b / c`, or nothing where the quotient does not
/// fit.
fn mul_div(a: u128, b: u128, c: u128) -> (r: Option<(u128, u128)>)
    requires
        0 < c <= 0x1000_0000_0000_0000_0000_0000_0000_0000,
    ensures
        match r {
            Some((q, rem)) => a * b == q * c + rem && rem < c && q == a * b / (c as int) && rem == a
                * b % (c as int),
            None => a * b / (c as int) > u128::MAX,
        },
    decreases a,
{
    if a == 0 {
        proof {
            assert(0 * b == 0) by (nonlinear_arith);
            lemma_quotient(0, 0, c as int, 0);
        }
        return Some((0, 0));
    }
    let h = a / 2;
    let odd = a % 2;
    proof {
        assert(0 <= h * b <= a * b) by (nonlinear_arith)
            requires
                0 <= h <= a,
                b >= 0,
        ;
        vstd::arithmetic::div_mod::lemma_div_is_ordered(h * b, a * b, c as int);
    }
    match mul_div(h, b, c) {
        None => None,
        Some((q, rem)) => {
            let (bq, br) = if odd == 1 {
                (b / c, b % c)
            } else {
                (0, 0)
            };
            proof {
                if odd == 1 {
                    vstd::arithmetic::div_mod::lemma_fundamental_div_mod(b as int, c as int);
                    assert(b == bq * c + br) by (nonlinear_arith)
                        requires
                            b == c * bq + br,
                    ;
                } else {
                    assert(0 * b == 0 && 0 * c == 0) by (nonlinear_arith);
                }
                lemma_double_step(
                    a as int,
                    h as int,
                    odd as int,
                    b as int,
                    c as int,
                    q as int,
                    rem as int,
                    bq as int,
                    br as int,
                );
            }
            let low: u128 = 2 * rem + br;
            let carry: u128 = if low >= 2 * c {
                2
            } else if low >= c {
                1
            } else {
                0
            };
            proof {
                assert(carry * c == if carry == 2 {
                    2 * c as int
                } else if carry == 1 {
                    c as int
                } else {
                    0
                }) by (nonlinear_arith)
                    requires
                        carry == 0 || carry == 1 || carry == 2,
                ;
            }
            let rest: u128 = if carry == 2 {
                low - 2 * c
            } else if carry == 1 {
                low - c
            } else {
                low
            };
            proof {
                let whole = 2 * q + bq + carry;
                assert(whole * c == (2 * q + bq) * c + carry * c) by (nonlinear_arith)
                    requires
                        whole == 2 * q + bq + carry,
                ;
                lemma_quotient(a * b, whole, c as int, rest as int);
            }
            if q > 0x7fff_ffff_ffff_ffff_ffff_ffff_ffff_ffff {
                return None;
            }
            match (2 * q).checked_add(bq) {
                None => None,
                Some(most) => match most.checked_add(carry) {
                    None => None,
                    Some(whole) => Some((whole, rest)),
                },
            }
        },
    }
}

/// `x * num / den` rounded to the nearest index.
fn scale_nearest(x: u128, num: u128, den: u128) -> (r: usize)
    requires
        0 < den <= 0x1000_0000_0000_0000_0000_0000_0000_0000,
    ensures
        r == capped(nearest(x * num, den as int)),
{
    proof {
        assert(x * num >= 0) by (nonlinear_arith)
            requires
                x >= 0,
                num >= 0,
        ;
        lemma_nearest_from_parts(x * num, den as int);
    }
    match mul_div(x, num, den) {
        None => usize::MAX,
        Some((q, rem)) => {
            if q >= usize::MAX as u128 {
                usize::MAX
            } else if rem >= den - rem {
                (q + 1) as usize
            } else {
                q as usize
            }
        },
    }
}

/// The absolute loop sample at the start of a given grid position (in units).
pub fn sample_of_step(units: u128, sample_rate: usize, tempo: Tempo) -> (r: usize)
    requires
        tempo.wf(),
    ensures
        r == sample_at(units as int, sample_rate, tempo),
{
    let len = samples_per_step(sample_rate, tempo);
    proof {
        lemma_step_bounds(sample_rate, tempo);
    }
    assert(0 < 1_496_020_807_977_696_000 * len.den <= 0x1000_0000_0000_0000_0000_0000_0000_0000);
    scale_nearest(units, len.num, UNITS_PER_STEP as u128 * len.den)
}

/// Length of `steps` whole steps in samples, at least one sample.
pub open spec fn span_samples(steps: int, sample_rate: usize, tempo: Tempo) -> usize {
    let s = capped(nearest(steps * step_num(sample_rate, tempo), step_den(tempo)));
    if s < 1 {
        1
    } else {
        s
    }
}

/// Length of a span of whole steps in samples, at least one sample.
pub fn samples_of_steps(steps: usize, sample_rate: usize, tempo: Tempo) -> (r: usize)
    requires
        tempo.wf(),
    ensures
        r == span_samples(steps as int, sample_rate, tempo),
        r >= 1,
{
    let len = samples_per_step(sample_rate, tempo);
    proof {
        lemma_step_bounds(sample_rate, tempo);
    }
    let s = scale_nearest(steps as u128, len.num, len.den);
    if s < 1 {
        1
    } else {
        s
    }
}

/// The grid step the given absolute loop sample is on.
pub fn step_at(sample: usize, sample_rate: usize, tempo: Tempo) -> (r: usize)
    requires
        tempo.wf(),
    ensures
        r == step_of(sample as int, sample_rate, tempo),
{
    let len = samples_per_step(sample_rate, tempo);
    proof {
        lemma_step_bounds(sample_rate, tempo);
    }
    if sample == 0 {
        return 0;
    }
    if len.num == 0 {
        return usize::MAX;
    }
    assert(0 <= sample * len.den <= 0x4_0000_0000_0000_0000_0000_0000) by (nonlinear_arith)
        requires
            0 <= sample <= 0xffff_ffff_ffff_ffff,
            0 <= len.den <= 0x4_0000_0000,
    ;
    let q = sample as u128 * len.den / len.num;
    if q > usize::MAX as u128 {
        usize::MAX
    } else {
        q as usize
    }
}

/// The grid position (fractional, tuplet-aware) of an absolute loop sample,
/// rounded down to whole units.
pub fn position_at(sample: usize, sample_rate: usize, tempo: Tempo) -> (r: Steps)
    requires
        tempo.wf(),
    ensures
        r@ == units_at(sample as int, sample_rate, tempo),
{
    let len = samples_per_step(sample_rate, tempo);
    proof {
        lemma_step_bounds(sample_rate, tempo);
    }
    if sample == 0 {
        return Steps::of(0);
    }
    if len.num == 0 {
        return Steps::from_units(u128::MAX);
    }
    assert(1_496_020_807_977_696_000 * len.den <= 0x1000_0000_0000_0000_0000_0000_0000_0000);
    match mul_div(sample as u128, UNITS_PER_STEP as u128 * len.den, len.num) {
        None => Steps::from_units(u128::MAX),
        Some((q, _)) => Steps::from_units(q),
    }
}

/// The length of one beat in grid units, for a time signature that counts
/// `1 / beat_unit` notes.
pub open spec fn beat_units(beat_unit: u32) -> int {
    let b: int = if beat_unit == 0 {
        1
    } else {
        beat_unit as int
    };
    STEPS_PER_WHOLE * UNITS_PER_STEP / b
}

/// The length of one beat in grid units: a whole note divided by the beat unit
/// of the time signature.
pub fn steps_per_beat(beat_unit: u32) -> (r: u128)
    ensures
        r == beat_units(beat_unit),
        1 <= r <= 0x2_0000_0000_0000_0000,
{
    let b: u128 = if beat_unit == 0 {
        1
    } else {
        beat_unit as u128
    };
    assert(1 <= 23_936_332_927_643_136_000int / (b as int) <= 23_936_332_927_643_136_000)
        by (nonlinear_arith)
        requires
            1 <= b <= 0xffff_ffff,
    ;
    STEPS_PER_WHOLE * UNITS_PER_STEP as u128 / b
}

/// Where a step is a whole number of samples, the sample at the start of step
/// `k` is on step `k`, and so are all samples before the next start.
pub proof fn a_step_begins_at_its_sample(k: int, d: int, sample_rate: usize, tempo: Tempo)
    requires
        tempo.wf(),
        0 <= k,
        0 <= d,
        ({
            let m = step_num(sample_rate, tempo) / step_den(tempo);
            &&& step_num(sample_rate, tempo) % step_den(tempo) == 0
            &&& d < m
            &&& (k + 1) * m <= usize::MAX
        }),
    ensures
        step_of(sample_at(k * UNITS_PER_STEP, sample_rate, tempo) + d, sample_rate, tempo) == k,
{
    let num = step_num(sample_rate, tempo);
    let den = step_den(tempo);
    let u = UNITS_PER_STEP as int;
    let m = num / den;
    lemma_step_bounds(sample_rate, tempo);
    assert(den > 0);
    vstd::arithmetic::div_mod::lemma_fundamental_div_mod(num, den);
    assert(num == den * m);
    assert((k * u) * num == (k * m) * (u * den)) by (nonlinear_arith)
        requires
            num == den * m,
    ;
    assert(u * den > 0) by (nonlinear_arith)
        requires
            u > 0,
            den > 0,
    ;
    assert(k * m >= 0) by (nonlinear_arith)
        requires
            k >= 0,
            m >= 0,
    ;
    lemma_nearest_whole(k * m, u * den);
    assert((k + 1) * m == k * m + m) by (nonlinear_arith);
    assert(sample_at(k * UNITS_PER_STEP, sample_rate, tempo) == k * m);
    let s = k * m + d;
    assert(num > 0) by (nonlinear_arith)
        requires
            num == den * m,
            den > 0,
            m > 0,
    ;
    assert(k * num <= s * den < (k + 1) * num) by (nonlinear_arith)
        requires
            num == den * m,
            s == k * m + d,
            0 <= d < m,
            den > 0,
    ;
    assert(s * den / num == k) by (nonlinear_arith)
        requires
            k * num <= s * den < (k + 1) * num,
            num > 0,
    ;
    assert(k <= k * m) by (nonlinear_arith)
        requires
            k >= 0,
            m >= 1,
    ;
    if s == 0 {
        assert(k == 0) by (nonlinear_arith)
            requires
                k * m + d == 0,
                m >= 1,
                k >= 0,
                d >= 0,
        ;
    }
}

pub proof fn lemma_nearest_whole(q: int, d: int)
    requires
        d > 0,
        q >= 0,
    ensures
        nearest(q * d, d) == q,
{
    assert((2 * (q * d) + d) / (2 * d) == q) by (nonlinear_arith)
        requires
            d > 0,
            q >= 0,
    ;
}

} // verus!
