//! What holds of playback over time: every scheduled event is played at its
//! sample, once per loop, and the transport keeps its place.
use vstd::prelude::*;

#[allow(unused_imports)]
use crate::audio::{
    click_samples, due_end, fired, preview_aged, preview_ends, preview_kept, preview_starts,
    EngineView, PreviewNote, Tone,
};
#[allow(unused_imports)]
use crate::events::{entry_in_loop, schedule, schedule_is_playable, NoteEvent};
#[allow(unused_imports)]
use crate::grid::Tempo;
#[allow(unused_imports)]
use crate::level::PREVIEW_VELOCITY;
#[allow(unused_imports)]
use crate::pattern::PatternView;
#[allow(unused_imports)]
use crate::sort::{partition_at, partition_index, partition_is_unique, sorted, Keyed};
#[allow(unused_imports)]
use crate::timbre::Timbre;
#[allow(unused_imports)]
use crate::tuning::TuningKind;

verus! {

/// The cursor stands at the first event that the playhead has not passed.
pub open spec fn in_step(e: EngineView) -> bool {
    partition_index(e.events, e.sample_counter as int, e.events_pos as int)
}

/// The playhead is inside the loop. It is outside where the loop became shorter
/// than the playhead's place, until the next sample is played.
pub open spec fn inside_loop(e: EngineView) -> bool {
    e.sample_counter < e.loop_samples
}

/// The engine `n` samples later.
pub open spec fn run(e: EngineView, n: nat) -> EngineView
    decreases n,
{
    if n == 0 {
        e
    } else {
        run(e, (n - 1) as nat).advanced()
    }
}

/// The scheduled events that are played in the next `n` samples, in order.
pub open spec fn heard(e: EngineView, n: nat) -> Seq<NoteEvent>
    decreases n,
{
    if n == 0 {
        seq![]
    } else {
        let now = run(e, (n - 1) as nat);
        heard(e, (n - 1) as nat) + fired(now.events, now.events_pos as int, now.fired_to())
    }
}

proof fn lemma_kept_len(s: Seq<PreviewNote>)
    ensures
        preview_kept(s).len() <= s.len(),
    decreases s.len(),
{
    if s.len() > 0 {
        lemma_kept_len(s.drop_last());
    }
}

pub(crate) proof fn lemma_due_end_bounds(events: Seq<(usize, NoteEvent)>, pos: int, sample: usize)
    requires
        0 <= pos <= events.len(),
    ensures
        pos <= due_end(events, pos, sample) <= events.len(),
        forall|i: int|
            pos <= i < due_end(events, pos, sample) ==> (#[trigger] events[i]).0 <= sample,
        due_end(events, pos, sample) < events.len() ==> events[due_end(events, pos, sample)].0
            > sample,
    decreases events.len() - pos,
{
    if pos < events.len() && events[pos].0 <= sample {
        lemma_due_end_bounds(events, pos + 1, sample);
    }
}

/// Playing on keeps the engine well formed, and changes neither pattern, tempo,
/// loop nor schedule.
pub proof fn playing_on_keeps_the_song(e: EngineView, n: nat)
    requires
        e.wf(),
    ensures
        run(e, n).wf(),
        run(e, n).pattern == e.pattern,
        run(e, n).tempo == e.tempo,
        run(e, n).loop_samples == e.loop_samples,
        run(e, n).events == e.events,
        run(e, n).playing == e.playing,
        run(e, n).play_start_pos == e.play_start_pos,
    decreases n,
{
    if n > 0 {
        let p = run(e, (n - 1) as nat);
        playing_on_keeps_the_song(e, (n - 1) as nat);
        lemma_kept_len(p.preview);
        lemma_due_end_bounds(p.events, p.events_pos as int, p.sample_counter);
        let l = p.loop_samples as int;
        assert(0 <= (p.sample_counter + 1) % l < l);
    }
}

/// While the cursor is in step, exactly the events of the current sample fire,
/// and the cursor stays in step at the next sample.
pub proof fn events_fire_at_their_sample(e: EngineView)
    requires
        e.wf(),
        e.playing,
        inside_loop(e),
        in_step(e),
    ensures
        e.fired_to() == partition_at(e.events, e.sample_counter + 1),
        forall|i: int|
            e.events_pos <= i < e.fired_to() <==> 0 <= i < e.events.len() && (
            #[trigger] e.events[i]).0 == e.sample_counter,
        in_step(e.advanced()),
        inside_loop(e.advanced()),
{
    let c = e.sample_counter;
    let to = e.fired_to();
    schedule_is_playable(
        e.events,
        e.pattern.notes,
        e.sample_rate,
        e.tempo,
        e.loop_samples,
    );
    lemma_due_end_bounds(e.events, e.events_pos as int, c);
    assert forall|i: int| to <= i < e.events.len() implies (#[trigger] e.events[i]).0 > c by {
        assert(e.events[to].key() <= e.events[i].key());
    }
    assert(partition_index(e.events, c + 1, to)) by {
        assert forall|i: int| 0 <= i < to implies (#[trigger] e.events[i]).key() < c + 1 by {
            if i < e.events_pos {
                assert(e.events[i].key() < c);
            }
        }
        assert forall|i: int| to <= i < e.events.len() implies (#[trigger] e.events[i]).key() >= c
            + 1 by {
            assert(e.events[i].0 > c);
        }
    }
    partition_is_unique(e.events, c + 1, to);
    assert forall|i: int|
        e.events_pos <= i < e.fired_to() <==> 0 <= i < e.events.len() && (
        #[trigger] e.events[i]).0 == c by {
        if 0 <= i < e.events_pos {
            assert(e.events[i].key() < c);
        }
        if e.events_pos <= i < to {
            assert(e.events[i].key() >= c);
        }
    }
    let l = e.loop_samples as int;
    if c + 1 < l {
        assert((c + 1) % l == c + 1) by (nonlinear_arith)
            requires
                0 <= c + 1 < l,
        ;
    } else {
        assert(l % l == 0) by (nonlinear_arith)
            requires
                l > 0,
        ;
    }
}

/// From anywhere in the loop, playing to some later place in it plays exactly
/// the events between, each once and in order.
pub proof fn playing_plays_what_lies_between(e: EngineView, n: nat)
    requires
        e.wf(),
        e.playing,
        inside_loop(e),
        in_step(e),
        e.sample_counter + n <= e.loop_samples,
    ensures
        heard(e, n) == fired(
            e.events,
            e.events_pos as int,
            partition_at(e.events, e.sample_counter + n),
        ),
        e.sample_counter + n < e.loop_samples ==> run(e, n).sample_counter == e.sample_counter
            + n && run(e, n).events_pos == partition_at(e.events, e.sample_counter + n),
        e.sample_counter + n == e.loop_samples ==> run(e, n).sample_counter == 0 && run(
            e,
            n,
        ).events_pos == 0,
        in_step(run(e, n)),
        inside_loop(run(e, n)),
    decreases n,
{
    if n == 0 {
        partition_is_unique(e.events, e.sample_counter as int, e.events_pos as int);
        assert(heard(e, n) =~= fired(e.events, e.events_pos as int, e.events_pos as int));
    } else {
        let m = (n - 1) as nat;
        let p = run(e, m);
        playing_on_keeps_the_song(e, m);
        playing_plays_what_lies_between(e, m);
        events_fire_at_their_sample(p);
        let a = e.events_pos as int;
        let b = p.events_pos as int;
        let c = p.fired_to();
        lemma_due_end_bounds(p.events, b, p.sample_counter);
        assert(a <= b) by {
            if b < a {
                assert(e.events[b].key() < e.sample_counter);
                assert(e.events[b].key() >= p.sample_counter);
            }
        }
        assert(fired(e.events, a, b) + fired(e.events, b, c) =~= fired(e.events, a, c));
        let l = e.loop_samples as int;
        let k = p.sample_counter + 1;
        if k < l {
            assert(k % l == k) by (nonlinear_arith)
                requires
                    0 <= k < l,
            ;
        } else {
            assert(l % l == 0) by (nonlinear_arith)
                requires
                    l > 0,
            ;
        }
    }
}

/// One pass over the loop plays the whole schedule, every event once, and ends
/// where it began: the loop repeats.
pub proof fn a_loop_plays_the_whole_schedule(e: EngineView)
    requires
        e.wf(),
        e.playing,
        e.sample_counter == 0,
        in_step(e),
    ensures
        heard(e, e.loop_samples as nat) == fired(e.events, 0, e.events.len() as int),
        run(e, e.loop_samples as nat).sample_counter == 0,
        in_step(run(e, e.loop_samples as nat)),
{
    let n = e.loop_samples as nat;
    playing_plays_what_lies_between(e, n);
    schedule_is_playable(
        e.events,
        e.pattern.notes,
        e.sample_rate,
        e.tempo,
        e.loop_samples,
    );
    assert(partition_index(e.events, n as int, e.events.len() as int)) by {
        assert forall|i: int| 0 <= i < e.events.len() implies (#[trigger] e.events[i]).key()
            < n by {
            assert(entry_in_loop(e.events[i], e.loop_samples));
        }
    }
    partition_is_unique(e.events, n as int, e.events.len() as int);
    if e.events_pos > 0 {
        assert(e.events[0].key() < 0);
    }
}

proof fn lemma_partition_exists(s: Seq<(usize, NoteEvent)>, k: int)
    requires
        sorted(s),
    ensures
        partition_index(s, k, partition_at(s, k)),
    decreases s.len(),
{
    if s.len() == 0 {
        assert(partition_index(s, k, 0));
    } else {
        let t = s.drop_last();
        assert forall|i: int, j: int| 0 <= i <= j < t.len() implies (#[trigger] t[i]).key() <= (
        #[trigger] t[j]).key() by {
            assert(s[i].key() <= s[j].key());
        }
        lemma_partition_exists(t, k);
        let r = partition_at(t, k);
        if s.last().key() < k {
            assert forall|i: int| 0 <= i < s.len() implies (#[trigger] s[i]).key() < k by {
                assert(s[i].key() <= s[s.len() - 1].key());
            }
            assert(partition_index(s, k, s.len() as int));
        } else {
            assert forall|i: int| 0 <= i < r implies (#[trigger] s[i]).key() < k by {
                assert(t[i].key() < k);
            }
            assert forall|i: int| r <= i < s.len() implies (#[trigger] s[i]).key() >= k by {
                if i < t.len() {
                    assert(t[i].key() >= k);
                }
            }
            assert(partition_index(s, k, r));
        }
    }
}

/// Whatever moves the playhead or changes what is played brings the cursor back
/// in step: seeking, rewinding, starting, a new pattern and a new tempo.
pub proof fn the_transport_gets_in_step(e: EngineView, units: nat, p: PatternView, bpm: Tempo)
    requires
        e.wf(),
    ensures
        in_step(e.seek_to_step(units)),
        inside_loop(e.seek_to_step(units)),
        in_step(e.rewind()),
        inside_loop(e.rewind()),
        !e.playing ==> in_step(e.set_playing(true)),
        e.set_pattern(p).wf() ==> in_step(e.set_pattern(p)),
        e.set_tempo(bpm).wf() ==> in_step(e.set_tempo(bpm)),
{
    schedule_is_playable(
        e.events,
        e.pattern.notes,
        e.sample_rate,
        e.tempo,
        e.loop_samples,
    );
    lemma_partition_exists(e.events, e.sample_counter as int);
    lemma_partition_exists(e.events, e.seek_to_step(units).sample_counter as int);
    let a = e.set_pattern(p);
    if a.wf() {
        lemma_partition_exists(a.events, a.sample_counter as int);
    }
    let b = e.set_tempo(bpm);
    if b.wf() {
        lemma_partition_exists(b.events, b.sample_counter as int);
    }
}

/// While the transport plays inside the loop, the cursor is in step.
pub open spec fn ready(e: EngineView) -> bool {
    e.playing && inside_loop(e) ==> in_step(e)
}

/// Whatever is done to the engine, and whatever it plays, the cursor is in step
/// while the transport plays inside the loop. Only a playhead that was left
/// outside by a shorter loop comes back in without it.
pub proof fn the_cursor_is_always_in_step(
    e: EngineView,
    units: nat,
    playing: bool,
    p: PatternView,
    bpm: Tempo,
    pitch: i32,
    kind: TuningKind,
    t: Timbre,
    slot: int,
)
    requires
        e.wf(),
        ready(e),
    ensures
        ready(e.seek_to_step(units)),
        ready(e.rewind()),
        ready(e.set_playing(playing)),
        e.set_pattern(p).wf() ==> ready(e.set_pattern(p)),
        e.set_tempo(bpm).wf() ==> ready(e.set_tempo(bpm)),
        ready(e.preview_note(pitch)),
        ready(e.set_tuning(kind)),
        ready(e.set_timbre(t)),
        ready(e.set_effect_on(slot, playing)),
        ready(e.set_effect_mix(slot, pitch)),
        ready(e.set_sample_one_shot(playing)),
        inside_loop(e) || !e.playing ==> ready(e.advanced()),
{
    the_transport_gets_in_step(e, units, p, bpm);
    if e.playing && inside_loop(e) {
        events_fire_at_their_sample(e);
    }
}

/// Stopping returns the playhead to where playback started, however long it
/// played, silences everything at the next sample, and plays no event of the
/// schedule from then on.
pub proof fn stopping_returns_and_silences(e: EngineView, n: nat)
    requires
        e.wf(),
        !e.playing,
    ensures
        ({
            let stopped = run(e.set_playing(true), n).set_playing(false);
            &&& !stopped.playing
            &&& stopped.sample_counter == e.sample_counter
            &&& stopped.frame().events.contains(NoteEvent::ImmediateStop)
            &&& stopped.fired_to() == stopped.events_pos
        }),
{
    schedule_is_playable(
        e.events,
        e.pattern.notes,
        e.sample_rate,
        e.tempo,
        e.loop_samples,
    );
    lemma_partition_exists(e.events, e.sample_counter as int);
    playing_on_keeps_the_song(e.set_playing(true), n);
    let stopped = run(e.set_playing(true), n).set_playing(false);
    let none = fired(stopped.events, stopped.events_pos as int, stopped.fired_to());
    assert(none.len() == 0);
    assert(stopped.frame().events[0] == NoteEvent::ImmediateStop);
}

/// Every preview note starts to sound, is kept until its time is over, and is
/// released in the sample in which it leaves the list.
pub proof fn previews_start_and_end(s: Seq<PreviewNote>, sample: usize)
    ensures
        forall|i: int|
            0 <= i < s.len() && !(#[trigger] s[i]).started ==> preview_starts(s, sample).contains(
                NoteEvent::NoteOn {
                    time: sample,
                    channel: 0,
                    note: s[i].note,
                    velocity: PREVIEW_VELOCITY,
                },
            ),
        forall|i: int|
            0 <= i < s.len() ==> if preview_aged(#[trigger] s[i]).remaining == 0 {
                preview_ends(s, sample).contains(
                    NoteEvent::NoteOff { time: sample, channel: 0, note: s[i].note, velocity: 0 },
                )
            } else {
                preview_kept(s).contains(preview_aged(s[i]))
            },
        preview_kept(s).len() + preview_ends(s, sample).len() == s.len(),
    decreases s.len(),
{
    if s.len() > 0 {
        let t = s.drop_last();
        previews_start_and_end(t, sample);
        assert forall|i: int| 0 <= i < s.len() && !(#[trigger] s[i]).started implies preview_starts(
            s,
            sample,
        ).contains(
            NoteEvent::NoteOn {
                time: sample,
                channel: 0,
                note: s[i].note,
                velocity: PREVIEW_VELOCITY,
            },
        ) by {
            let ev = NoteEvent::NoteOn {
                time: sample,
                channel: 0,
                note: s[i].note,
                velocity: PREVIEW_VELOCITY,
            };
            if i < t.len() {
                assert(t[i] == s[i]);
                let j = preview_starts(t, sample).index_of(ev);
                assert(preview_starts(s, sample)[j] == ev);
            } else {
                assert(preview_starts(s, sample).last() == ev);
            }
        }
        assert forall|i: int| 0 <= i < s.len() implies if preview_aged(#[trigger] s[i]).remaining
            == 0 {
            preview_ends(s, sample).contains(
                NoteEvent::NoteOff { time: sample, channel: 0, note: s[i].note, velocity: 0 },
            )
        } else {
            preview_kept(s).contains(preview_aged(s[i]))
        } by {
            let ev = NoteEvent::NoteOff {
                time: sample,
                channel: 0,
                note: s[i].note,
                velocity: 0,
            };
            let p = preview_aged(s[i]);
            if i < t.len() {
                assert(t[i] == s[i]);
                if p.remaining == 0 {
                    let j = preview_ends(t, sample).index_of(ev);
                    assert(preview_ends(s, sample)[j] == ev);
                } else {
                    let j = preview_kept(t).index_of(p);
                    assert(preview_kept(s)[j] == p);
                }
            } else {
                if p.remaining == 0 {
                    assert(preview_ends(s, sample).last() == ev);
                } else {
                    assert(preview_kept(s).last() == p);
                }
            }
        }
    }
}

/// Switching the tuning leaves the notes, the loop and the schedule alone: the
/// same degrees sound in the new tuning.
pub proof fn retuning_keeps_the_notes(e: EngineView, kind: TuningKind)
    ensures
        e.set_tuning(kind).pattern == e.pattern,
        e.set_tuning(kind).events == e.events,
        e.set_tuning(kind).loop_samples == e.loop_samples,
        e.set_tuning(kind).sample_counter == e.sample_counter,
        e.set_tuning(kind).plan().tuning == crate::tuning::tuning_of(kind, e.custom_ratios),
{
}

/// What a project stores of the engine comes back when another engine loads it
/// and takes its custom scale.
pub proof fn a_project_restores_the_engine(a: EngineView, b: EngineView)
    requires
        a.wf(),
        b.wf(),
    ensures
        b.import_project(a.export_project()).set_custom_ratios(
            a.export_project().custom_ratios,
        ).export_project() == a.export_project(),
{
    let p = a.export_project();
    let voiced = b.with_song(p).set_tuning(p.tuning).set_timbre(p.timbre);
    let states = p.effects;
    reveal_with_fuel(EngineView::with_effects, 3);
    assert(states.len() == 2);
    assert(states.drop_last().drop_last().len() == 0);
    let r = voiced.with_effects(states);
    assert(r.effects.len() == 2);
    assert(r.effects[0].on == a.effects[0].on && r.effects[0].mix == a.effects[0].mix);
    assert(r.effects[1].on == a.effects[1].on && r.effects[1].mix == a.effects[1].mix);
    let back = b.import_project(p).set_custom_ratios(p.custom_ratios).export_project();
    assert(back.effects =~= p.effects);
    assert(back =~= p);
}

/// The metronome starts a tick on every new beat, twice as loud and an octave
/// higher on the first beat of a bar; a running tick goes on sample by sample
/// for 30 ms, and without a new beat none starts.
pub proof fn the_metronome_ticks_on_beats(e: EngineView)
    requires
        e.wf(),
        e.ticking(),
    ensures
        e.advanced().click.last_beat == e.beat(),
        e.beat() != e.click.last_beat && e.sample_rate > 0 ==> e.frame().tone == Some(
            if e.pattern.beats_per_bar <= 1 || e.beat() as int % e.pattern.beats_per_bar as int
                == 0 {
                Tone { age: 0, freq: 2000, gain: (2 * e.metronome_volume) as i32 }
            } else {
                Tone { age: 0, freq: 1000, gain: e.metronome_volume }
            },
        ),
        e.beat() == e.click.last_beat && e.click.age < click_samples(e.sample_rate) ==> {
            &&& e.frame().tone == Some(
                Tone { age: e.click.age, freq: e.click.freq, gain: e.click.gain },
            )
            &&& e.advanced().click.age == e.click.age + 1
        },
        e.beat() == e.click.last_beat && e.click.age >= click_samples(e.sample_rate) ==> {
            &&& e.frame().tone is None
            &&& e.advanced().click == e.click
        },
{
    let b = e.pattern.beats_per_bar;
    if b <= 1 {
        assert(e.beat() as int % 1 == 0);
    }
}

/// The playhead goes round and round: `n` samples later it is `n` samples
/// further, counted round the loop.
pub proof fn the_playhead_goes_round(e: EngineView, n: nat)
    requires
        e.wf(),
        e.playing,
        inside_loop(e) || n > 0,
    ensures
        run(e, n).sample_counter == (e.sample_counter + n) % e.loop_samples as int,
    decreases n,
{
    let l = e.loop_samples as int;
    let c = e.sample_counter as int;
    if n == 0 {
        assert(c % l == c) by (nonlinear_arith)
            requires
                0 <= c < l,
        ;
    } else {
        let m = (n - 1) as nat;
        playing_on_keeps_the_song(e, m);
        if m > 0 {
            the_playhead_goes_round(e, m);
            vstd::arithmetic::div_mod::lemma_add_mod_noop_right(1, c + m, l);
            assert((1 + (c + m) % l) % l == (1 + (c + m)) % l);
        }
    }
}

proof fn lemma_previews_are_notes(s: Seq<PreviewNote>, sample: usize)
    ensures
        !preview_starts(s, sample).contains(NoteEvent::ImmediateStop),
        !preview_ends(s, sample).contains(NoteEvent::ImmediateStop),
    decreases s.len(),
{
    if s.len() > 0 {
        lemma_previews_are_notes(s.drop_last(), sample);
        let a = preview_starts(s.drop_last(), sample);
        let b = preview_ends(s.drop_last(), sample);
        assert forall|i: int| 0 <= i < preview_starts(s, sample).len() implies preview_starts(
            s,
            sample,
        )[i] != NoteEvent::ImmediateStop by {
            if i < a.len() {
                assert(a.contains(a[i]));
            }
        }
        assert forall|i: int| 0 <= i < preview_ends(s, sample).len() implies preview_ends(
            s,
            sample,
        )[i] != NoteEvent::ImmediateStop by {
            if i < b.len() {
                assert(b.contains(b[i]));
            }
        }
    }
}

/// A sample without a pending stop holds no stop event.
proof fn lemma_no_stop(e: EngineView)
    requires
        e.wf(),
        !e.stop_pending,
    ensures
        !e.frame().events.contains(NoteEvent::ImmediateStop),
{
    let scheduled = fired(e.events, e.events_pos as int, e.fired_to());
    let starts = preview_starts(e.preview, e.sample_counter);
    let ends = preview_ends(e.preview, e.sample_counter);
    lemma_due_end_bounds(e.events, e.events_pos as int, e.sample_counter);
    lemma_previews_are_notes(e.preview, e.sample_counter);
    schedule_is_playable(
        e.events,
        e.pattern.notes,
        e.sample_rate,
        e.tempo,
        e.loop_samples,
    );
    let all = e.frame().events;
    assert forall|i: int| 0 <= i < all.len() implies all[i] != NoteEvent::ImmediateStop by {
        if i < scheduled.len() {
            assert(all[i] == scheduled[i]);
            assert(entry_in_loop(e.events[e.events_pos + i], e.loop_samples));
        } else if i < scheduled.len() + starts.len() {
            assert(all[i] == starts[i - scheduled.len()]);
            assert(starts.contains(all[i]));
        } else {
            assert(all[i] == ends[i - scheduled.len() - starts.len()]);
            assert(ends.contains(all[i]));
        }
    }
}

/// A stop is played once: after the next sample, no later one holds a stop event
/// until something asks for a stop again.
pub proof fn a_stop_is_played_once(e: EngineView, n: nat)
    requires
        e.wf(),
        n > 0,
    ensures
        !run(e, n).frame().events.contains(NoteEvent::ImmediateStop),
        !run(e, n).stop_pending,
{
    playing_on_keeps_the_song(e, n);
    lemma_no_stop(run(e, n));
}

} // verus!
