//! From a pattern to note events: what fires at a sample, and the schedule of
//! a whole loop.
use vstd::prelude::*;

use crate::grid::{sample_of_step, samples_of_steps, step_at, Tempo, UNITS_PER_STEP};
use crate::pattern::Pattern;
use crate::sort::{stable_sort, Keyed};
use crate::tuning::REF_NOTE;
#[allow(unused_imports)]
use crate::grid::{nearest, sample_at, span_samples, step_den, step_num, step_of};
#[allow(unused_imports)]
use crate::pattern::{end_of, NoteView};
#[allow(unused_imports)]
use crate::sort::{sorted, stable_sort_is_permutation, stable_sort_is_unique, stable_sort_of};

verus! {

/// What the transport tells the sound generator.
#[derive(Debug, Clone, Copy, PartialEq, Eq, Structural)]
pub enum NoteEvent {
    /// A note starts to sound.
    NoteOn { time: usize, channel: u8, note: usize, velocity: i32 },
    /// A note is released.
    NoteOff { time: usize, channel: u8, note: usize, velocity: i32 },
    /// Everything that sounds stops at once.
    ImmediateStop,
}

impl Keyed for (usize, NoteEvent) {
    open spec fn key(self) -> int {
        self.0 as int
    }

    fn sort_key(&self) -> (k: u64) {
        self.0 as u64
    }

    fn same(&self) -> (r: (usize, NoteEvent)) {
        (self.0, self.1)
    }
}

/// The note number that a degree of the tuning sounds as.
pub open spec fn sounding_note(pitch_index: i32) -> usize {
    if REF_NOTE + pitch_index < 0 {
        0
    } else {
        (REF_NOTE + pitch_index) as usize
    }
}

/// The note number that a degree of the tuning sounds as: counted from the
/// reference note, never below zero.
pub fn note_number(pitch_index: i32) -> (r: usize)
    ensures
        r == sounding_note(pitch_index),
{
    let n: i64 = REF_NOTE as i64 + pitch_index as i64;
    if n < 0 {
        0
    } else {
        n as usize
    }
}

/// The length of one full loop of a pattern in samples.
pub fn loop_samples(pattern: &Pattern, sample_rate: usize, tempo: Tempo) -> (r: usize)
    requires
        tempo.wf(),
    ensures
        r == span_samples(pattern.total_steps as int, sample_rate, tempo),
        r >= 1,
{
    samples_of_steps(pattern.total_steps, sample_rate, tempo)
}

/// The events of one note on a given step: its start, then its end.
pub open spec fn note_events_on(n: NoteView, step: usize, sample: usize) -> Seq<NoteEvent> {
    let on = NoteEvent::NoteOn {
        time: sample,
        channel: 0,
        note: sounding_note(n.pitch_index),
        velocity: n.velocity,
    };
    let off = NoteEvent::NoteOff {
        time: sample,
        channel: 0,
        note: sounding_note(n.pitch_index),
        velocity: n.velocity,
    };
    (if n.start_step == step * UNITS_PER_STEP {
        seq![on]
    } else {
        seq![]
    }) + (if end_of(n) == step * UNITS_PER_STEP {
        seq![off]
    } else {
        seq![]
    })
}

/// The events of all notes on a given step, note by note.
pub open spec fn events_on(notes: Seq<NoteView>, step: usize, sample: usize) -> Seq<NoteEvent>
    decreases notes.len(),
{
    if notes.len() == 0 {
        seq![]
    } else {
        events_on(notes.drop_last(), step, sample) + note_events_on(notes.last(), step, sample)
    }
}

/// Whether a position is exactly the start of a step.
fn is_step_start(units: u128, step: usize) -> (r: bool)
    ensures
        r == (units == step * UNITS_PER_STEP),
{
    assert(step * 1_496_020_807_977_696_000 <= u128::MAX);
    units == step as u128 * UNITS_PER_STEP as u128
}

/// Fill `out` with the events that fire at absolute loop `sample`.
pub fn sample_events_into(
    pattern: &Pattern,
    sample_rate: usize,
    tempo: Tempo,
    sample: usize,
    out: &mut Vec<NoteEvent>,
)
    requires
        tempo.wf(),
    ensures
        final(out)@ == old(out)@ + events_on(
            pattern@.notes,
            step_of(sample as int, sample_rate, tempo),
            sample,
        ),
{
    let step = step_at(sample, sample_rate, tempo);
    let ghost before = out@;
    let ghost views = pattern@.notes;
    assert(before + events_on(views.take(0), step, sample) =~= before);
    for i in 0..pattern.notes.len()
        invariant
            views == pattern@.notes,
            out@ == before + events_on(views.take(i as int), step, sample),
    {
        let n = &pattern.notes[i];
        let note = note_number(n.pitch_index);
        assert(views[i as int] == n@);
        let ghost prior = out@;
        if is_step_start(n.start_step.units(), step) {
            out.push(NoteEvent::NoteOn { time: sample, channel: 0, note, velocity: n.velocity });
        }
        if is_step_start(n.start_step.units() + n.length_steps.units(), step) {
            out.push(NoteEvent::NoteOff { time: sample, channel: 0, note, velocity: n.velocity });
        }
        proof {
            assert(out@ =~= prior + note_events_on(n@, step, sample));
            assert(views.take(i + 1).drop_last() =~= views.take(i as int));
            assert(out@ =~= before + events_on(views.take(i + 1), step, sample));
        }
    }
    assert(views.take(views.len() as int) =~= views);
}

/// The two schedule entries of a note that starts inside the loop: its start,
/// and its end or, where that lies past the loop, the last sample of the loop.
/// A note that starts past the loop has none.
pub open spec fn note_schedule(
    n: NoteView,
    sample_rate: usize,
    tempo: Tempo,
    loop_samples: usize,
) -> Seq<(usize, NoteEvent)> {
    let on = sample_at(n.start_step as int, sample_rate, tempo);
    let end = sample_at(end_of(n), sample_rate, tempo);
    let off = if end < loop_samples {
        end
    } else {
        (loop_samples - 1) as usize
    };
    let note = sounding_note(n.pitch_index);
    if on >= loop_samples {
        seq![]
    } else {
        seq![
            (on, NoteEvent::NoteOn { time: on, channel: 0, note, velocity: n.velocity }),
            (off, NoteEvent::NoteOff { time: off, channel: 0, note, velocity: n.velocity }),
        ]
    }
}

/// The schedule entries of all notes, note by note.
pub open spec fn unsorted_schedule(
    notes: Seq<NoteView>,
    sample_rate: usize,
    tempo: Tempo,
    loop_samples: usize,
) -> Seq<(usize, NoteEvent)>
    decreases notes.len(),
{
    if notes.len() == 0 {
        seq![]
    } else {
        unsorted_schedule(notes.drop_last(), sample_rate, tempo, loop_samples) + note_schedule(
            notes.last(),
            sample_rate,
            tempo,
            loop_samples,
        )
    }
}

/// `events` is the schedule of the notes over one loop, in playing order.
pub open spec fn is_schedule(
    events: Seq<(usize, NoteEvent)>,
    notes: Seq<NoteView>,
    sample_rate: usize,
    tempo: Tempo,
    loop_samples: usize,
) -> bool {
    stable_sort_of(events, unsorted_schedule(notes, sample_rate, tempo, loop_samples))
}

/// The schedule of the notes over one loop.
pub open spec fn schedule(
    notes: Seq<NoteView>,
    sample_rate: usize,
    tempo: Tempo,
    loop_samples: usize,
) -> Seq<(usize, NoteEvent)> {
    choose|s: Seq<(usize, NoteEvent)>| is_schedule(s, notes, sample_rate, tempo, loop_samples)
}

/// A pattern has one schedule only.
pub proof fn schedule_is_unique(
    s: Seq<(usize, NoteEvent)>,
    notes: Seq<NoteView>,
    sample_rate: usize,
    tempo: Tempo,
    loop_samples: usize,
)
    requires
        is_schedule(s, notes, sample_rate, tempo, loop_samples),
    ensures
        s == schedule(notes, sample_rate, tempo, loop_samples),
        is_schedule(
            schedule(notes, sample_rate, tempo, loop_samples),
            notes,
            sample_rate,
            tempo,
            loop_samples,
        ),
{
    let t = schedule(notes, sample_rate, tempo, loop_samples);
    assert(is_schedule(t, notes, sample_rate, tempo, loop_samples));
    stable_sort_is_unique(s, t, unsorted_schedule(notes, sample_rate, tempo, loop_samples));
}

/// The sorted schedule of one loop of the pattern: every note starts, and is
/// released, at its exact sample. Events of the same sample come in the order
/// of the notes.
pub fn build_events(
    pattern: &Pattern,
    sample_rate: usize,
    tempo: Tempo,
    loop_samples: usize,
) -> (r: Vec<(usize, NoteEvent)>)
    requires
        tempo.wf(),
        loop_samples >= 1,
    ensures
        is_schedule(r@, pattern@.notes, sample_rate, tempo, loop_samples),
        r@ == schedule(pattern@.notes, sample_rate, tempo, loop_samples),
{
    let mut raw: Vec<(usize, NoteEvent)> = Vec::new();
    let ghost views = pattern@.notes;
    for i in 0..pattern.notes.len()
        invariant
            tempo.wf(),
            loop_samples >= 1,
            views == pattern@.notes,
            raw@ == unsorted_schedule(views.take(i as int), sample_rate, tempo, loop_samples),
    {
        let n = &pattern.notes[i];
        assert(views[i as int] == n@);
        let ghost prior = raw@;
        let on = sample_of_step(n.start_step.units(), sample_rate, tempo);
        if on < loop_samples {
            let end = sample_of_step(
                n.start_step.units() + n.length_steps.units(),
                sample_rate,
                tempo,
            );
            let off: usize = if end < loop_samples {
                end
            } else {
                loop_samples - 1
            };
            let note = note_number(n.pitch_index);
            raw.push((on, NoteEvent::NoteOn { time: on, channel: 0, note, velocity: n.velocity }));
            raw.push(
                (off, NoteEvent::NoteOff { time: off, channel: 0, note, velocity: n.velocity }),
            );
        }
        proof {
            assert(raw@ =~= prior + note_schedule(n@, sample_rate, tempo, loop_samples));
            assert(views.take(i + 1).drop_last() =~= views.take(i as int));
        }
    }
    assert(views.take(views.len() as int) =~= views);
    let r = stable_sort(&raw);
    proof {
        schedule_is_unique(r@, views, sample_rate, tempo, loop_samples);
    }
    r
}

proof fn lemma_nearest_monotone(p: int, q: int, d: int)
    requires
        p <= q,
        d > 0,
    ensures
        nearest(p, d) <= nearest(q, d),
{
    vstd::arithmetic::div_mod::lemma_div_is_ordered(2 * p + d, 2 * q + d, 2 * d);
}

/// Later grid positions never come at earlier samples.
pub proof fn sample_at_is_monotone(a: int, b: int, sample_rate: usize, tempo: Tempo)
    requires
        0 <= a <= b,
        tempo.wf(),
    ensures
        sample_at(a, sample_rate, tempo) <= sample_at(b, sample_rate, tempo),
{
    let num = step_num(sample_rate, tempo);
    let den = UNITS_PER_STEP * step_den(tempo);
    let d = tempo.floored().den;
    assert(sample_rate * 60 * d >= 0) by (nonlinear_arith)
        requires
            sample_rate >= 0,
            d >= 0,
    ;
    assert(a * num <= b * num) by (nonlinear_arith)
        requires
            a <= b,
            num >= 0,
    ;
    assert(0 <= a * num) by (nonlinear_arith)
        requires
            0 <= a,
            num >= 0,
    ;
    lemma_nearest_monotone(a * num, b * num, den);
    lemma_nearest_monotone(0, a * num, den);
    assert(nearest(0, den) == 0) by (nonlinear_arith)
        requires
            den > 0,
    ;
}

/// The entry is a note start or a note end, at its own sample inside the loop.
pub open spec fn entry_in_loop(e: (usize, NoteEvent), loop_samples: usize) -> bool {
    &&& e.0 < loop_samples
    &&& match e.1 {
        NoteEvent::NoteOn { time, channel, .. } => time == e.0 && channel == 0,
        NoteEvent::NoteOff { time, channel, .. } => time == e.0 && channel == 0,
        NoteEvent::ImmediateStop => false,
    }
}

/// Some entry releases `note` at or after sample `from`.
pub open spec fn released_later(
    events: Seq<(usize, NoteEvent)>,
    note: usize,
    velocity: i32,
    from: usize,
) -> bool {
    exists|j: int|
        0 <= j < events.len() && from <= (#[trigger] events[j]).0 && events[j].1 == (
        NoteEvent::NoteOff { time: events[j].0, channel: 0, note, velocity })
}

proof fn lemma_unsorted_schedule(
    notes: Seq<NoteView>,
    sample_rate: usize,
    tempo: Tempo,
    loop_samples: usize,
)
    requires
        tempo.wf(),
        loop_samples >= 1,
    ensures
        ({
            let s = unsorted_schedule(notes, sample_rate, tempo, loop_samples);
            &&& forall|i: int| 0 <= i < s.len() ==> entry_in_loop(#[trigger] s[i], loop_samples)
            &&& forall|i: int|
                0 <= i < s.len() ==> ((#[trigger] s[i]).1 matches NoteEvent::NoteOn {
                    time,
                    channel,
                    note,
                    velocity,
                } ==> released_later(s, note, velocity, s[i].0))
        }),
    decreases notes.len(),
{
    if notes.len() > 0 {
        let n = notes.last();
        let rest = unsorted_schedule(notes.drop_last(), sample_rate, tempo, loop_samples);
        let own = note_schedule(n, sample_rate, tempo, loop_samples);
        let s = rest + own;
        lemma_unsorted_schedule(notes.drop_last(), sample_rate, tempo, loop_samples);
        sample_at_is_monotone(n.start_step as int, end_of(n), sample_rate, tempo);
        assert forall|i: int| 0 <= i < s.len() implies entry_in_loop(
            #[trigger] s[i],
            loop_samples,
        ) by {
            if i < rest.len() {
                assert(s[i] == rest[i]);
            }
        }
        assert forall|i: int| 0 <= i < s.len() implies ((#[trigger] s[i]).1 matches NoteEvent::NoteOn {
            time,
            channel,
            note,
            velocity,
        } ==> released_later(s, note, velocity, s[i].0)) by {
            if let NoteEvent::NoteOn { time, channel, note, velocity } = s[i].1 {
                if i < rest.len() {
                    assert(s[i] == rest[i]);
                    let j = choose|j: int|
                        0 <= j < rest.len() && rest[i].0 <= (#[trigger] rest[j]).0 && rest[j].1 == (
                        NoteEvent::NoteOff { time: rest[j].0, channel: 0, note, velocity });
                    assert(s[j] == rest[j]);
                } else {
                    assert(s[rest.len() as int + 1] == own[1]);
                    assert(s[i] == own[0]);
                }
            }
        }
    }
}

/// Every entry of the schedule falls inside the loop, the entries come in time
/// order, and every note that starts is released before the loop is over.
pub proof fn schedule_is_playable(
    events: Seq<(usize, NoteEvent)>,
    notes: Seq<NoteView>,
    sample_rate: usize,
    tempo: Tempo,
    loop_samples: usize,
)
    requires
        tempo.wf(),
        loop_samples >= 1,
        is_schedule(events, notes, sample_rate, tempo, loop_samples),
    ensures
        sorted(events),
        forall|i: int| 0 <= i < events.len() ==> entry_in_loop(#[trigger] events[i], loop_samples),
        forall|i: int|
            0 <= i < events.len() ==> ((#[trigger] events[i]).1 matches NoteEvent::NoteOn {
                time,
                channel,
                note,
                velocity,
            } ==> released_later(events, note, velocity, events[i].0)),
{
    let raw = unsorted_schedule(notes, sample_rate, tempo, loop_samples);
    lemma_unsorted_schedule(notes, sample_rate, tempo, loop_samples);
    stable_sort_is_permutation(events, raw);
    assert forall|i: int| 0 <= i < events.len() implies entry_in_loop(
        #[trigger] events[i],
        loop_samples,
    ) by {
        assert(events.contains(events[i]));
        assert(raw.contains(events[i]));
    }
    assert forall|i: int| 0 <= i < events.len() implies (
    (#[trigger] events[i]).1 matches NoteEvent::NoteOn { time, channel, note, velocity } ==> released_later(
        events,
        note,
        velocity,
        events[i].0,
    )) by {
        if let NoteEvent::NoteOn { time, channel, note, velocity } = events[i].1 {
            assert(events.contains(events[i]));
            assert(raw.contains(events[i]));
            let r = choose|r: int| 0 <= r < raw.len() && raw[r] == events[i];
            assert(released_later(raw, note, velocity, raw[r].0));
            let j = choose|j: int|
                0 <= j < raw.len() && raw[r].0 <= (#[trigger] raw[j]).0 && raw[j].1 == (
                NoteEvent::NoteOff { time: raw[j].0, channel: 0, note, velocity });
            assert(raw.contains(raw[j]));
            assert(events.contains(raw[j]));
            let m = choose|m: int| 0 <= m < events.len() && events[m] == raw[j];
            assert(events[m].0 == raw[j].0);
        }
    }
}

proof fn lemma_unsorted_contains(
    notes: Seq<NoteView>,
    sample_rate: usize,
    tempo: Tempo,
    loop_samples: usize,
    e: (usize, NoteEvent),
)
    ensures
        unsorted_schedule(notes, sample_rate, tempo, loop_samples).contains(e) <==> exists|i: int|
            0 <= i < notes.len() && note_schedule(
                #[trigger] notes[i],
                sample_rate,
                tempo,
                loop_samples,
            ).contains(e),
    decreases notes.len(),
{
    let s = unsorted_schedule(notes, sample_rate, tempo, loop_samples);
    if notes.len() > 0 {
        let t = notes.drop_last();
        let rest = unsorted_schedule(t, sample_rate, tempo, loop_samples);
        let own = note_schedule(notes.last(), sample_rate, tempo, loop_samples);
        lemma_unsorted_contains(t, sample_rate, tempo, loop_samples, e);
        if s.contains(e) {
            let k = s.index_of(e);
            if k < rest.len() {
                assert(rest[k] == e);
                let i = choose|i: int|
                    0 <= i < t.len() && note_schedule(
                        #[trigger] t[i],
                        sample_rate,
                        tempo,
                        loop_samples,
                    ).contains(e);
                assert(notes[i] == t[i]);
            } else {
                assert(own[k - rest.len()] == e);
                assert(notes[notes.len() - 1] == notes.last());
            }
        }
        if exists|i: int|
            0 <= i < notes.len() && note_schedule(
                #[trigger] notes[i],
                sample_rate,
                tempo,
                loop_samples,
            ).contains(e) {
            let i = choose|i: int|
                0 <= i < notes.len() && note_schedule(
                    #[trigger] notes[i],
                    sample_rate,
                    tempo,
                    loop_samples,
                ).contains(e);
            if i < t.len() {
                assert(t[i] == notes[i]);
                let k = rest.index_of(e);
                assert(s[k] == e);
            } else {
                let k = own.index_of(e);
                assert(s[rest.len() + k] == e);
            }
        }
    }
}

/// The schedule holds exactly the entries of the notes: each note that starts
/// inside the loop starts and ends in it, and nothing else is played.
pub proof fn every_note_is_scheduled(
    events: Seq<(usize, NoteEvent)>,
    notes: Seq<NoteView>,
    sample_rate: usize,
    tempo: Tempo,
    loop_samples: usize,
)
    requires
        is_schedule(events, notes, sample_rate, tempo, loop_samples),
    ensures
        forall|e: (usize, NoteEvent)| #[trigger]
            events.contains(e) <==> exists|i: int|
                0 <= i < notes.len() && note_schedule(
                    #[trigger] notes[i],
                    sample_rate,
                    tempo,
                    loop_samples,
                ).contains(e),
{
    let raw = unsorted_schedule(notes, sample_rate, tempo, loop_samples);
    stable_sort_is_permutation(events, raw);
    assert forall|e: (usize, NoteEvent)| #[trigger] events.contains(e) <==> exists|i: int|
        0 <= i < notes.len() && note_schedule(
            #[trigger] notes[i],
            sample_rate,
            tempo,
            loop_samples,
        ).contains(e) by {
        lemma_unsorted_contains(notes, sample_rate, tempo, loop_samples, e);
    }
}

} // verus!
