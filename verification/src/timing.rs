//! What holds of time: how grid positions, samples, beats and tempo relate, and
//! where the notes of a pattern are played.
use vstd::prelude::*;

#[allow(unused_imports)]
use crate::audio::{beat_of, click_samples, preview_samples};
#[allow(unused_imports)]
use crate::events::{
    events_on, every_note_is_scheduled, is_schedule, note_events_on, note_schedule, sounding_note,
    unsorted_schedule, NoteEvent,
};
#[allow(unused_imports)]
use crate::grid::{
    beat_units, clamped_tempo, max_units, nearest, sample_at, span_samples, step_den, step_num,
    step_of, units_at, Tempo, UNITS_PER_STEP,
};
#[allow(unused_imports)]
use crate::pattern::NoteView;
#[allow(unused_imports)]
use crate::sort::{equal_keys_keep_their_order, stable_sort_is_permutation, Keyed};

verus! {

proof fn lemma_floor(p: int, c: int)
    requires
        c > 0,
    ensures
        (p / c) * c <= p < (p / c) * c + c,
        (p / c) * c + p % c == p,
{
    vstd::arithmetic::div_mod::lemma_fundamental_div_mod(p, c);
    vstd::arithmetic::div_mod::lemma_mod_bound(p, c);
    let q = p / c;
    assert(q * c == c * q) by (nonlinear_arith);
}

proof fn lemma_nearest(p: int, c: int)
    requires
        c > 0,
        p >= 0,
    ensures
        2 * (nearest(p, c) * c) <= 2 * p + c,
        2 * p < 2 * (nearest(p, c) * c) + c,
        nearest(p, c) >= 0,
{
    let q = nearest(p, c);
    lemma_floor(2 * p + c, 2 * c);
    assert(q * (2 * c) == 2 * (q * c)) by (nonlinear_arith);
    assert(q >= 0) by (nonlinear_arith)
        requires
            2 * p + c < q * (2 * c) + 2 * c,
            p >= 0,
            c > 0,
    ;
}

proof fn lemma_below(x: int, y: int, c: int)
    requires
        x < y,
        c > 0,
    ensures
        x * c + c <= y * c,
{
    assert(x * c + c <= y * c) by (nonlinear_arith)
        requires
            x + 1 <= y,
            c > 0,
    ;
}

proof fn lemma_product(a: int, b: int)
    requires
        a >= 0,
        b >= 0,
    ensures
        a * b >= 0,
{
    assert(a * b >= 0) by (nonlinear_arith)
        requires
            a >= 0,
            b >= 0,
    ;
}

/// A step is a quarter of a beat: `60 / tempo` seconds divided by four. A tempo
/// below one beat per minute counts as one.
pub proof fn a_step_is_a_quarter_of_a_beat(sample_rate: usize, tempo: Tempo)
    requires
        tempo.den > 0,
    ensures
        step_den(tempo) > 0,
        tempo.num >= tempo.den ==> step_num(sample_rate, tempo) * (tempo.num * 4) == (sample_rate
            * 60 * tempo.den) * step_den(tempo),
        tempo.num < tempo.den ==> step_num(sample_rate, tempo) * 4 == (sample_rate * 60)
            * step_den(tempo),
{
    if tempo.num < tempo.den {
        assert(sample_rate * 60 * 1u32 == sample_rate * 60);
    }
}

/// The sample of a grid position is the one nearest to it. A step lasts a quarter
/// of `60 / tempo` seconds, and a tempo below one beat per minute counts as one.
pub proof fn a_position_is_at_the_nearest_sample(units: int, sample_rate: usize, tempo: Tempo)
    requires
        tempo.den > 0,
        units >= 0,
    ensures
        ({
            let n: int = if tempo.num < tempo.den {
                1
            } else {
                tempo.num as int
            };
            let d: int = if tempo.num < tempo.den {
                1
            } else {
                tempo.den as int
            };
            let s = sample_at(units, sample_rate, tempo);
            let exact = units * (sample_rate * 60 * d);
            let one = UNITS_PER_STEP * (n * 4);
            &&& 2 * (s * one) <= 2 * exact + one
            &&& s < usize::MAX ==> 2 * exact < 2 * (s * one) + one
        }),
{
    let num = step_num(sample_rate, tempo);
    let den = step_den(tempo);
    let t = tempo.floored();
    lemma_product(sample_rate * 60, t.den as int);
    lemma_product(units, num);
    let one = UNITS_PER_STEP * den;
    lemma_nearest(units * num, one);
    let q = nearest(units * num, one);
    if q > usize::MAX {
        lemma_below(usize::MAX as int, q, one);
    }
}

/// A loop of whole steps is as many samples long as its steps take, to the nearest
/// sample, and at least one.
pub proof fn a_loop_is_as_long_as_its_steps(steps: int, sample_rate: usize, tempo: Tempo)
    requires
        tempo.den > 0,
        steps >= 0,
    ensures
        ({
            let n: int = if tempo.num < tempo.den {
                1
            } else {
                tempo.num as int
            };
            let d: int = if tempo.num < tempo.den {
                1
            } else {
                tempo.den as int
            };
            let s = span_samples(steps, sample_rate, tempo);
            let exact = steps * (sample_rate * 60 * d);
            let one = n * 4;
            &&& s >= 1
            &&& s > 1 ==> 2 * (s * one) <= 2 * exact + one
            &&& s < usize::MAX ==> 2 * exact < 2 * (s * one) + one
        }),
{
    let num = step_num(sample_rate, tempo);
    let den = step_den(tempo);
    let t = tempo.floored();
    lemma_product(sample_rate * 60, t.den as int);
    lemma_product(steps, num);
    lemma_nearest(steps * num, den);
    let q = nearest(steps * num, den);
    if q > usize::MAX {
        lemma_below(usize::MAX as int, q, den);
    }
    if q < 1 {
        assert(q * den <= 1 * den) by (nonlinear_arith)
            requires
                q <= 1,
                den > 0,
        ;
    }
}

/// The grid position of a sample is the last one that the sample has reached.
pub proof fn a_sample_is_at_its_position(sample: int, sample_rate: usize, tempo: Tempo)
    requires
        tempo.den > 0,
        sample >= 0,
        sample_rate > 0,
    ensures
        ({
            let n: int = if tempo.num < tempo.den {
                1
            } else {
                tempo.num as int
            };
            let d: int = if tempo.num < tempo.den {
                1
            } else {
                tempo.den as int
            };
            let u = units_at(sample, sample_rate, tempo);
            let k = step_of(sample, sample_rate, tempo);
            let minute = sample_rate * 60 * d;
            &&& u >= 0
            &&& u * minute <= sample * (UNITS_PER_STEP * (n * 4))
            &&& u < u64::MAX * UNITS_PER_STEP ==> sample * (UNITS_PER_STEP * (n * 4)) < u * minute
                + minute
            &&& k * minute <= sample * (n * 4)
            &&& k < usize::MAX ==> sample * (n * 4) < k * minute + minute
        }),
{
    let num = step_num(sample_rate, tempo);
    let den = step_den(tempo);
    let t = tempo.floored();
    assert(sample_rate * 60 * t.den >= 1) by (nonlinear_arith)
        requires
            sample_rate >= 1,
            t.den >= 1,
    ;
    lemma_product(sample, den);
    lemma_product(sample, UNITS_PER_STEP * den);
    let p = sample * (UNITS_PER_STEP * den);
    lemma_floor(p, num);
    lemma_floor(sample * den, num);
    vstd::arithmetic::div_mod::lemma_div_pos_is_pos(p, num);
    vstd::arithmetic::div_mod::lemma_div_pos_is_pos(sample * den, num);
    let q = p / num;
    if q > max_units() {
        lemma_below(max_units(), q, num);
    }
    let k = sample * den / num;
    if k > usize::MAX {
        lemma_below(usize::MAX as int, k, num);
    }
    if sample == 0 {
        assert(0 * num == 0 && 0 * den == 0 && 0 * (UNITS_PER_STEP * den) == 0) by (nonlinear_arith);
    }
}

proof fn lemma_equal_quotients(p: int, c: int, r: int, e: int)
    requires
        c > 0,
        e > 0,
        p * e == r * c,
    ensures
        p / c == r / e,
{
    let q = p / c;
    lemma_floor(p, c);
    assert(q * e <= r < q * e + e) by (nonlinear_arith)
        requires
            q * c <= p < q * c + c,
            p * e == r * c,
            c > 0,
            e > 0,
    ;
    vstd::arithmetic::div_mod::lemma_fundamental_div_mod_converse(r, e, q, r - q * e);
}

proof fn lemma_equal_nearest(p: int, c: int, r: int, e: int)
    requires
        c > 0,
        e > 0,
        p * e == r * c,
    ensures
        nearest(p, c) == nearest(r, e),
{
    assert((2 * p + c) * (2 * e) == (2 * r + e) * (2 * c)) by (nonlinear_arith)
        requires
            p * e == r * c,
    ;
    lemma_equal_quotients(2 * p + c, 2 * c, 2 * r + e, 2 * e);
}

proof fn lemma_cross_products(a: int, b: int, c: int, d: int)
    ensures
        (a * b) * (c * d) == (a * c) * (b * d),
{
    assert((a * b) * (c * d) == (a * c) * (b * d)) by (nonlinear_arith);
}

/// Only how fast a tempo is counts, not how its fraction is written: equal tempi
/// put every position, sample, step and loop at the same place.
pub proof fn equal_tempi_play_alike(a: Tempo, b: Tempo, x: int, sample_rate: usize)
    requires
        a.den > 0,
        b.den > 0,
        a.num * b.den == b.num * a.den,
        x >= 0,
    ensures
        sample_at(x, sample_rate, a) == sample_at(x, sample_rate, b),
        units_at(x, sample_rate, a) == units_at(x, sample_rate, b),
        step_of(x, sample_rate, a) == step_of(x, sample_rate, b),
        span_samples(x, sample_rate, a) == span_samples(x, sample_rate, b),
{
    let s = a.floored();
    let t = b.floored();
    assert((a.num < a.den) == (b.num < b.den)) by (nonlinear_arith)
        requires
            a.num * b.den == b.num * a.den,
            a.den > 0,
            b.den > 0,
            a.num >= 0,
            b.num >= 0,
    ;
    assert(s.num * t.den == t.num * s.den);
    let r60 = sample_rate * 60;
    let an = step_num(sample_rate, a);
    let bn = step_num(sample_rate, b);
    let ad = step_den(a);
    let bd = step_den(b);
    let u = UNITS_PER_STEP as int;
    assert(an == r60 * s.den && bn == r60 * t.den);
    assert(an * bd == bn * ad) by (nonlinear_arith)
        requires
            an == r60 * s.den,
            bn == r60 * t.den,
            ad == s.num * 4,
            bd == t.num * 4,
            s.num * t.den == t.num * s.den,
    ;
    lemma_cross_products(x, an, u, bd);
    lemma_cross_products(x, bn, u, ad);
    assert((x * an) * bd == (x * bn) * ad) by (nonlinear_arith)
        requires
            an * bd == bn * ad,
    ;
    assert(u * ad > 0 && u * bd > 0);
    lemma_equal_nearest(x * an, u * ad, x * bn, u * bd);
    lemma_equal_nearest(x * an, ad, x * bn, bd);
    assert(an == 0 <==> bn == 0) by (nonlinear_arith)
        requires
            an * bd == bn * ad,
            ad > 0,
            bd > 0,
    ;
    lemma_product(r60, s.den as int);
    lemma_product(r60, t.den as int);
    if an != 0 {
        lemma_cross_products(x, bn, u, ad);
        lemma_cross_products(x, an, u, bd);
        assert((x * (u * ad)) * bn == (x * bn) * (u * ad)) by (nonlinear_arith);
        assert((x * (u * bd)) * an == (x * an) * (u * bd)) by (nonlinear_arith);
        assert((x * ad) * bn == (x * bd) * an) by (nonlinear_arith)
            requires
                an * bd == bn * ad,
        ;
        lemma_equal_quotients(x * (u * ad), an, x * (u * bd), bn);
        lemma_equal_quotients(x * ad, an, x * bd, bn);
    }
}

/// A tempo below one beat per minute is raised to one, any other stays.
pub proof fn slow_tempi_are_raised_to_one(t: Tempo)
    requires
        t.den > 0,
    ensures
        t.floored().den > 0,
        t.floored().num >= t.floored().den,
        t.num >= t.den ==> t.floored() == t,
        t.num < t.den ==> t.floored().num == t.floored().den,
{
}

/// A tempo moved into a range lies in it, and is the tempo itself where that does
/// already, or the nearer end of the range.
pub proof fn a_clamped_tempo_is_in_range(t: Tempo, low: u32, high: u32)
    requires
        t.den > 0,
        low <= high,
    ensures
        ({
            let r = clamped_tempo(t, low, high);
            &&& r.den > 0
            &&& low * r.den <= r.num <= high * r.den
            &&& low * t.den <= t.num <= high * t.den ==> r == t
            &&& t.num < low * t.den ==> r.num == low * r.den
            &&& t.num > high * t.den ==> r.num == high * r.den
        }),
{
    assert(low * t.den <= high * t.den) by (nonlinear_arith)
        requires
            low <= high,
            t.den > 0,
    ;
    assert(low * 1u32 == low && high * 1u32 == high);
    let r = clamped_tempo(t, low, high);
    if r != t {
        assert(r.den == 1u32);
        assert(low * r.den == low && high * r.den == high);
    }
}

/// A beat of a time signature is a whole note, sixteen steps, divided by the beat
/// unit.
pub proof fn a_beat_is_a_part_of_a_whole_note(beat_unit: u32)
    requires
        beat_unit > 0,
    ensures
        beat_units(beat_unit) * beat_unit <= 16 * UNITS_PER_STEP,
        16 * UNITS_PER_STEP < beat_units(beat_unit) * beat_unit + beat_unit,
        beat_units(beat_unit) > 0,
{
    let w = 16 * UNITS_PER_STEP as int;
    lemma_floor(w, beat_unit as int);
    assert(w / (beat_unit as int) >= 1) by (nonlinear_arith)
        requires
            w >= 0x1_0000_0000,
            0 < beat_unit <= 0xffff_ffff,
    ;
}

/// The beat of a sample counts the notes of the beat unit since the start of the
/// loop, `tempo / 60 * beat_unit / 4` of them in a second.
pub proof fn beats_follow_tempo_and_time_signature(
    sample: int,
    sample_rate: usize,
    tempo: Tempo,
    beat_unit: u32,
)
    requires
        tempo.den > 0,
        sample >= 0,
        sample_rate > 0,
        beat_unit > 0,
        (16 * UNITS_PER_STEP) % (beat_unit as int) == 0,
        units_at(sample, sample_rate, tempo) < u64::MAX * UNITS_PER_STEP,
    ensures
        ({
            let n: int = if tempo.num < tempo.den {
                1
            } else {
                tempo.num as int
            };
            let d: int = if tempo.num < tempo.den {
                1
            } else {
                tempo.den as int
            };
            let beat = beat_of(sample, sample_rate, tempo, beat_unit);
            let minute = 4 * (sample_rate * 60 * d);
            &&& beat * minute <= sample * n * beat_unit
            &&& beat < usize::MAX ==> sample * n * beat_unit < beat * minute + minute
        }),
{
    let t = tempo.floored();
    let num = step_num(sample_rate, tempo);
    let den = step_den(tempo);
    let u = UNITS_PER_STEP as int;
    let b = beat_unit as int;
    let beat = beat_units(beat_unit);
    a_beat_is_a_part_of_a_whole_note(beat_unit);
    lemma_floor(16 * u, b);
    assert(beat * b == 16 * u);
    assert(num >= 1) by (nonlinear_arith)
        requires
            num == sample_rate * 60 * t.den,
            sample_rate >= 1,
            t.den >= 1,
    ;
    let p = sample * (u * den);
    lemma_product(sample, u * den);
    if sample == 0 {
        assert(0 * (u * den) == 0) by (nonlinear_arith);
        assert(0int / num == 0) by (nonlinear_arith)
            requires
                num >= 1,
        ;
    }
    assert(units_at(sample, sample_rate, tempo) == p / num);
    vstd::arithmetic::div_mod::lemma_div_denominator(p, num, beat);
    let q = p / (num * beat);
    lemma_product(num, beat);
    assert(num * beat > 0) by (nonlinear_arith)
        requires
            num >= 1,
            beat > 0,
    ;
    lemma_floor(p, num * beat);
    vstd::arithmetic::div_mod::lemma_div_pos_is_pos(p, num * beat);
    let minute = 4 * num;
    let counted = sample * t.num * b;
    // p * b == counted * 4 * u, and num * beat * b == minute * 4 * u
    assert(p * b == counted * (4 * u)) by (nonlinear_arith)
        requires
            p == sample * (u * (t.num * 4)),
            counted == sample * t.num * b,
    ;
    assert((num * beat) * b == minute * (4 * u)) by (nonlinear_arith)
        requires
            beat * b == 16 * u,
            minute == 4 * num,
    ;
    assert(q * minute <= counted < q * minute + minute) by (nonlinear_arith)
        requires
            q * (num * beat) <= p < q * (num * beat) + num * beat,
            p * b == counted * (4 * u),
            (num * beat) * b == minute * (4 * u),
            b > 0,
            u > 0,
    ;
    if q > usize::MAX {
        lemma_below(usize::MAX as int, q, minute);
    }
}

/// A preview rings 120 ms and a metronome tick 30 ms, to the sample.
pub proof fn previews_and_ticks_last_their_time(sample_rate: usize)
    ensures
        preview_samples(sample_rate) * 1000 <= 120 * sample_rate,
        120 * sample_rate < preview_samples(sample_rate) * 1000 + 1000,
        30 * sample_rate <= click_samples(sample_rate) * 1000,
        click_samples(sample_rate) * 1000 < 30 * sample_rate + 1000,
{
}

/// The position `units` is played before sample `end`: rounded to the nearest
/// sample, it lies below it.
pub open spec fn falls_before(units: int, end: int, sample_rate: usize, tempo: Tempo) -> bool {
    let n: int = if tempo.num < tempo.den {
        1
    } else {
        tempo.num as int
    };
    let d: int = if tempo.num < tempo.den {
        1
    } else {
        tempo.den as int
    };
    let one = UNITS_PER_STEP * (n * 4);
    2 * (units * (sample_rate * 60 * d)) + one < 2 * (end * one)
}

/// Sample `s` is at most half a sample away from the position `units`.
pub open spec fn is_nearest_sample(s: int, units: int, sample_rate: usize, tempo: Tempo) -> bool {
    let n: int = if tempo.num < tempo.den {
        1
    } else {
        tempo.num as int
    };
    let d: int = if tempo.num < tempo.den {
        1
    } else {
        tempo.den as int
    };
    let exact = units * (sample_rate * 60 * d);
    let one = UNITS_PER_STEP * (n * 4);
    2 * (s * one) <= 2 * exact + one && 2 * exact < 2 * (s * one) + one
}

proof fn lemma_falls_before(units: int, end: usize, sample_rate: usize, tempo: Tempo)
    requires
        tempo.den > 0,
        units >= 0,
    ensures
        falls_before(units, end as int, sample_rate, tempo) <==> sample_at(
            units,
            sample_rate,
            tempo,
        ) < end,
        sample_at(units, sample_rate, tempo) < end ==> is_nearest_sample(
            sample_at(units, sample_rate, tempo) as int,
            units,
            sample_rate,
            tempo,
        ),
{
    a_position_is_at_the_nearest_sample(units, sample_rate, tempo);
    let n: int = if tempo.num < tempo.den {
        1
    } else {
        tempo.num as int
    };
    let one = UNITS_PER_STEP * (n * 4);
    let s = sample_at(units, sample_rate, tempo) as int;
    if s < end {
        lemma_below(s, end as int, one);
    } else {
        assert(end * one <= s * one) by (nonlinear_arith)
            requires
                end <= s,
                one > 0,
        ;
    }
}

/// Every note that starts inside the loop starts at the sample nearest to its
/// start and is released at the one nearest to its end, or at the last sample of
/// the loop where it ends later; wherever it lies on the grid.
pub proof fn notes_are_played_at_their_exact_samples(
    events: Seq<(usize, NoteEvent)>,
    notes: Seq<NoteView>,
    i: int,
    sample_rate: usize,
    tempo: Tempo,
    loop_samples: usize,
)
    requires
        tempo.den > 0,
        loop_samples >= 1,
        is_schedule(events, notes, sample_rate, tempo, loop_samples),
        0 <= i < notes.len(),
        falls_before(notes[i].start_step as int, loop_samples as int, sample_rate, tempo),
    ensures
        ({
            let n = notes[i];
            let end = n.start_step + n.length_steps;
            let note: usize = if 48 + n.pitch_index < 0 {
                0
            } else {
                (48 + n.pitch_index) as usize
            };
            exists|on: (usize, NoteEvent), off: (usize, NoteEvent)|
                {
                    &&& #[trigger] events.contains(on)
                    &&& #[trigger] events.contains(off)
                    &&& on.1 == (NoteEvent::NoteOn {
                        time: on.0,
                        channel: 0,
                        note,
                        velocity: n.velocity,
                    })
                    &&& off.1 == (NoteEvent::NoteOff {
                        time: off.0,
                        channel: 0,
                        note,
                        velocity: n.velocity,
                    })
                    &&& on.0 <= off.0 < loop_samples
                    &&& is_nearest_sample(on.0 as int, n.start_step as int, sample_rate, tempo)
                    &&& if falls_before(end as int, loop_samples as int, sample_rate, tempo) {
                        is_nearest_sample(off.0 as int, end as int, sample_rate, tempo)
                    } else {
                        off.0 == loop_samples - 1
                    }
                }
        }),
{
    let n = notes[i];
    let end = n.start_step as int + n.length_steps as int;
    every_note_is_scheduled(events, notes, sample_rate, tempo, loop_samples);
    lemma_falls_before(n.start_step as int, loop_samples, sample_rate, tempo);
    lemma_falls_before(end, loop_samples, sample_rate, tempo);
    crate::events::sample_at_is_monotone(n.start_step as int, end, sample_rate, tempo);
    let own = note_schedule(n, sample_rate, tempo, loop_samples);
    let on = own[0];
    let off = own[1];
    assert(own.contains(on) && own.contains(off));
    assert(events.contains(on) && events.contains(off));
}

/// Nothing else is played: every entry of the schedule starts or releases a note
/// that starts inside the loop, at its sample.
pub proof fn only_notes_are_played(
    events: Seq<(usize, NoteEvent)>,
    notes: Seq<NoteView>,
    e: (usize, NoteEvent),
    sample_rate: usize,
    tempo: Tempo,
    loop_samples: usize,
)
    requires
        tempo.den > 0,
        loop_samples >= 1,
        is_schedule(events, notes, sample_rate, tempo, loop_samples),
        events.contains(e),
    ensures
        exists|i: int|
            {
                let n = #[trigger] notes[i];
                let end = n.start_step + n.length_steps;
                let note: usize = if 48 + n.pitch_index < 0 {
                    0
                } else {
                    (48 + n.pitch_index) as usize
                };
                &&& 0 <= i < notes.len()
                &&& falls_before(n.start_step as int, loop_samples as int, sample_rate, tempo)
                &&& {
                    ||| e.1 == (NoteEvent::NoteOn {
                        time: e.0,
                        channel: 0,
                        note,
                        velocity: n.velocity,
                    }) && is_nearest_sample(e.0 as int, n.start_step as int, sample_rate, tempo)
                    ||| e.1 == (NoteEvent::NoteOff {
                        time: e.0,
                        channel: 0,
                        note,
                        velocity: n.velocity,
                    }) && (if falls_before(end as int, loop_samples as int, sample_rate, tempo) {
                        is_nearest_sample(e.0 as int, end as int, sample_rate, tempo)
                    } else {
                        e.0 == loop_samples - 1
                    })
                }
            },
{
    every_note_is_scheduled(events, notes, sample_rate, tempo, loop_samples);
    let i = choose|i: int|
        0 <= i < notes.len() && note_schedule(
            #[trigger] notes[i],
            sample_rate,
            tempo,
            loop_samples,
        ).contains(e);
    let n = notes[i];
    let end = n.start_step as int + n.length_steps as int;
    lemma_falls_before(n.start_step as int, loop_samples, sample_rate, tempo);
    lemma_falls_before(end, loop_samples, sample_rate, tempo);
    let own = note_schedule(n, sample_rate, tempo, loop_samples);
    let k = own.index_of(e);
    assert(own[k] == e);
    assert(0 <= i < notes.len());
}

proof fn lemma_schedule_len(
    notes: Seq<NoteView>,
    sample_rate: usize,
    tempo: Tempo,
    loop_samples: usize,
)
    requires
        tempo.den > 0,
    ensures
        unsorted_schedule(notes, sample_rate, tempo, loop_samples).len() == 2 * notes.filter(
            |n: NoteView|
                falls_before(n.start_step as int, loop_samples as int, sample_rate, tempo),
        ).len(),
    decreases notes.len(),
{
    reveal(Seq::filter);
    if notes.len() > 0 {
        lemma_schedule_len(notes.drop_last(), sample_rate, tempo, loop_samples);
        lemma_falls_before(notes.last().start_step as int, loop_samples, sample_rate, tempo);
    }
}

/// The schedule has two entries for every note that starts inside the loop.
pub proof fn every_note_is_played_once(
    events: Seq<(usize, NoteEvent)>,
    notes: Seq<NoteView>,
    sample_rate: usize,
    tempo: Tempo,
    loop_samples: usize,
)
    requires
        tempo.den > 0,
        is_schedule(events, notes, sample_rate, tempo, loop_samples),
    ensures
        events.len() == 2 * notes.filter(
            |n: NoteView|
                falls_before(n.start_step as int, loop_samples as int, sample_rate, tempo),
        ).len(),
        forall|i: int, j: int|
            0 <= i <= j < events.len() ==> (#[trigger] events[i]).0 <= (#[trigger] events[j]).0,
{
    lemma_schedule_len(notes, sample_rate, tempo, loop_samples);
    stable_sort_is_permutation(
        events,
        unsorted_schedule(notes, sample_rate, tempo, loop_samples),
    );
    assert forall|i: int, j: int| 0 <= i <= j < events.len() implies (#[trigger] events[i]).0 <= (
    #[trigger] events[j]).0 by {
        assert(events[i].key() <= events[j].key());
    }
}

/// The events on a step are the starts of the notes that start exactly there and
/// the ends of those that end exactly there.
pub proof fn a_step_fires_the_notes_on_it(
    notes: Seq<NoteView>,
    step: usize,
    sample: usize,
    e: NoteEvent,
)
    ensures
        events_on(notes, step, sample).contains(e) <==> exists|i: int|
            {
                let n = #[trigger] notes[i];
                let note: usize = if 48 + n.pitch_index < 0 {
                    0
                } else {
                    (48 + n.pitch_index) as usize
                };
                &&& 0 <= i < notes.len()
                &&& {
                    ||| n.start_step == step * UNITS_PER_STEP && e == (NoteEvent::NoteOn {
                        time: sample,
                        channel: 0,
                        note,
                        velocity: n.velocity,
                    })
                    ||| n.start_step + n.length_steps == step * UNITS_PER_STEP && e == (
                    NoteEvent::NoteOff { time: sample, channel: 0, note, velocity: n.velocity })
                }
            },
    decreases notes.len(),
{
    let all = events_on(notes, step, sample);
    if notes.len() > 0 {
        let t = notes.drop_last();
        let rest = events_on(t, step, sample);
        let own = note_events_on(notes.last(), step, sample);
        a_step_fires_the_notes_on_it(t, step, sample, e);
        let last = notes.len() - 1;
        if all.contains(e) {
            let k = all.index_of(e);
            if k < rest.len() {
                assert(rest[k] == e);
                let i = choose|i: int|
                    {
                        let n = #[trigger] t[i];
                        let note: usize = if 48 + n.pitch_index < 0 {
                            0
                        } else {
                            (48 + n.pitch_index) as usize
                        };
                        &&& 0 <= i < t.len()
                        &&& {
                            ||| n.start_step == step * UNITS_PER_STEP && e == (NoteEvent::NoteOn {
                                time: sample,
                                channel: 0,
                                note,
                                velocity: n.velocity,
                            })
                            ||| n.start_step + n.length_steps == step * UNITS_PER_STEP && e == (
                            NoteEvent::NoteOff {
                                time: sample,
                                channel: 0,
                                note,
                                velocity: n.velocity,
                            })
                        }
                    };
                assert(notes[i] == t[i]);
            } else {
                assert(own[k - rest.len()] == e);
                assert(notes[last] == notes.last());
            }
        }
        assert(forall|i: int| 0 <= i < t.len() ==> #[trigger] notes[i] == t[i]);
        assert(forall|k: int| 0 <= k < rest.len() ==> #[trigger] all[k] == rest[k]);
        assert(forall|k: int| 0 <= k < own.len() ==> #[trigger] own[k] == all[rest.len() + k]);
        if rest.contains(e) {
            let k = rest.index_of(e);
            assert(all[k] == e);
        }
        if own.contains(e) {
            let k = own.index_of(e);
            assert(all[rest.len() + k] == e);
        }
        let n = notes.last();
        let note = sounding_note(n.pitch_index);
        let on = NoteEvent::NoteOn { time: sample, channel: 0, note, velocity: n.velocity };
        let off = NoteEvent::NoteOff { time: sample, channel: 0, note, velocity: n.velocity };
        if n.start_step == step * UNITS_PER_STEP {
            assert(own[0] == on);
        }
        if n.start_step + n.length_steps == step * UNITS_PER_STEP {
            assert(own.last() == off);
            assert(own[own.len() - 1] == off);
        }
    }
}

/// How many starts and ends of the first `n` notes lie on a step.
pub open spec fn events_before(notes: Seq<NoteView>, step: usize, n: int) -> nat
    decreases n,
{
    if n <= 0 {
        0
    } else {
        let m = notes[n - 1];
        events_before(notes, step, n - 1) + (if m.start_step == step * UNITS_PER_STEP {
            1nat
        } else {
            0
        }) + (if m.start_step + m.length_steps == step * UNITS_PER_STEP {
            1nat
        } else {
            0
        })
    }
}

proof fn lemma_events_prefix(a: Seq<NoteView>, b: Seq<NoteView>, step: usize, n: int)
    requires
        0 <= n <= a.len() <= b.len(),
        forall|i: int| 0 <= i < a.len() ==> a[i] == b[i],
    ensures
        events_before(a, step, n) == events_before(b, step, n),
    decreases n,
{
    if n > 0 {
        lemma_events_prefix(a, b, step, n - 1);
        assert(a[n - 1] == b[n - 1]);
    }
}

/// The events on a step come note by note, in the order of the pattern, the start of
/// a note before its end, and each once.
pub proof fn events_on_a_step_come_note_by_note(
    notes: Seq<NoteView>,
    step: usize,
    sample: usize,
    i: int,
)
    requires
        0 <= i < notes.len(),
    ensures
        ({
            let all = events_on(notes, step, sample);
            let n = notes[i];
            let k = events_before(notes, step, i) as int;
            let starts = n.start_step == step * UNITS_PER_STEP;
            let ends = n.start_step + n.length_steps == step * UNITS_PER_STEP;
            &&& all.len() == events_before(notes, step, notes.len() as int)
            &&& starts ==> k < all.len() && all[k] is NoteOn
            &&& ends && !starts ==> k < all.len() && all[k] is NoteOff
            &&& ends && starts ==> k + 1 < all.len() && all[k + 1] is NoteOff
        }),
    decreases notes.len(),
{
    let rest = notes.drop_last();
    let n = rest.len() as int;
    lemma_events_prefix(rest, notes, step, n);
    if rest.len() > 0 {
        let j = if i < n {
            i
        } else {
            0
        };
        events_on_a_step_come_note_by_note(rest, step, sample, j);
        if i < n {
            lemma_events_prefix(rest, notes, step, i);
            assert(rest[i] == notes[i]);
        }
    } else {
        assert(events_on(rest, step, sample).len() == 0);
    }
}

proof fn lemma_listed_in_order(
    notes: Seq<NoteView>,
    sample_rate: usize,
    tempo: Tempo,
    loop_samples: usize,
    i: int,
    j: int,
    p: int,
    q: int,
) -> (r: (int, int))
    requires
        0 <= i <= j < notes.len(),
        0 <= p < note_schedule(notes[i], sample_rate, tempo, loop_samples).len(),
        0 <= q < note_schedule(notes[j], sample_rate, tempo, loop_samples).len(),
        i < j || p < q,
    ensures
        ({
            let all = unsorted_schedule(notes, sample_rate, tempo, loop_samples);
            &&& 0 <= r.0 < r.1 < all.len()
            &&& all[r.0] == note_schedule(notes[i], sample_rate, tempo, loop_samples)[p]
            &&& all[r.1] == note_schedule(notes[j], sample_rate, tempo, loop_samples)[q]
        }),
    decreases notes.len(),
{
    let rest = notes.drop_last();
    let before = unsorted_schedule(rest, sample_rate, tempo, loop_samples);
    if j < rest.len() {
        assert(rest[i] == notes[i] && rest[j] == notes[j]);
        lemma_listed_in_order(rest, sample_rate, tempo, loop_samples, i, j, p, q)
    } else if i < j {
        assert(rest[i] == notes[i]);
        let a = lemma_listed(rest, sample_rate, tempo, loop_samples, i, p);
        (a, before.len() + q)
    } else {
        (before.len() + p, before.len() + q)
    }
}

proof fn lemma_listed(
    notes: Seq<NoteView>,
    sample_rate: usize,
    tempo: Tempo,
    loop_samples: usize,
    i: int,
    p: int,
) -> (r: int)
    requires
        0 <= i < notes.len(),
        0 <= p < note_schedule(notes[i], sample_rate, tempo, loop_samples).len(),
    ensures
        ({
            let all = unsorted_schedule(notes, sample_rate, tempo, loop_samples);
            &&& 0 <= r < all.len()
            &&& all[r] == note_schedule(notes[i], sample_rate, tempo, loop_samples)[p]
        }),
    decreases notes.len(),
{
    let rest = notes.drop_last();
    if i < rest.len() {
        assert(rest[i] == notes[i]);
        lemma_listed(rest, sample_rate, tempo, loop_samples, i, p)
    } else {
        unsorted_schedule(rest, sample_rate, tempo, loop_samples).len() + p
    }
}

/// The entry for the start, or the end, of a note that starts in the loop.
pub open spec fn entry_of(
    n: NoteView,
    start: bool,
    sample_rate: usize,
    tempo: Tempo,
    loop_samples: usize,
) -> (usize, NoteEvent) {
    let note: usize = if 48 + n.pitch_index < 0 {
        0
    } else {
        (48 + n.pitch_index) as usize
    };
    let end = sample_at((n.start_step + n.length_steps) as int, sample_rate, tempo);
    if start {
        let time = sample_at(n.start_step as int, sample_rate, tempo);
        (time, NoteEvent::NoteOn { time, channel: 0, note, velocity: n.velocity })
    } else {
        let time = if end < loop_samples {
            end
        } else {
            (loop_samples - 1) as usize
        };
        (time, NoteEvent::NoteOff { time, channel: 0, note, velocity: n.velocity })
    }
}

/// A note starts before it ends, also where both fall on one sample; and of two notes
/// with events on one sample, the events of the note that is first in the pattern come
/// first.
pub proof fn events_on_a_sample_keep_the_order_of_the_notes(
    events: Seq<(usize, NoteEvent)>,
    notes: Seq<NoteView>,
    sample_rate: usize,
    tempo: Tempo,
    loop_samples: usize,
    i: int,
    j: int,
    first: bool,
    second: bool,
)
    requires
        tempo.den > 0,
        loop_samples >= 1,
        is_schedule(events, notes, sample_rate, tempo, loop_samples),
        0 <= i <= j < notes.len(),
        i == j ==> first && !second,
        falls_before(notes[i].start_step as int, loop_samples as int, sample_rate, tempo),
        falls_before(notes[j].start_step as int, loop_samples as int, sample_rate, tempo),
    ensures
        ({
            let x = entry_of(notes[i], first, sample_rate, tempo, loop_samples);
            let y = entry_of(notes[j], second, sample_rate, tempo, loop_samples);
            x.0 == y.0 || i == j ==> exists|a: int, b: int|
                0 <= a < b < events.len() && #[trigger] events[a] == x && #[trigger] events[b] == y
        }),
{
    let all = unsorted_schedule(notes, sample_rate, tempo, loop_samples);
    lemma_falls_before(notes[i].start_step as int, loop_samples, sample_rate, tempo);
    lemma_falls_before(notes[j].start_step as int, loop_samples, sample_rate, tempo);
    let p: int = if first {
        0
    } else {
        1
    };
    let q: int = if second {
        0
    } else {
        1
    };
    let (a, b) = lemma_listed_in_order(notes, sample_rate, tempo, loop_samples, i, j, p, q);
    let x = entry_of(notes[i], first, sample_rate, tempo, loop_samples);
    let y = entry_of(notes[j], second, sample_rate, tempo, loop_samples);
    assert(all[a] == x && all[b] == y);
    if x.0 == y.0 {
        equal_keys_keep_their_order(events, all, a, b);
    } else if i == j {
        let end = notes[i].start_step as int + notes[i].length_steps as int;
        crate::events::sample_at_is_monotone(
            notes[i].start_step as int,
            end,
            sample_rate,
            tempo,
        );
        assert(x.0 < y.0);
        stable_sort_is_permutation(events, all);
        assert(all.contains(x) && all.contains(y));
        assert(events.contains(x) && events.contains(y));
        let c = events.index_of(x);
        let d = events.index_of(y);
        assert(events[c] == x && events[d] == y);
        if d <= c {
            assert(events[d].key() <= events[c].key());
        }
    }
}

} // verus!
