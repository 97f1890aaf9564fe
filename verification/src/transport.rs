//! What holds of the engine sample by sample, and of each thing that is done to it.
use vstd::prelude::*;

#[allow(unused_imports)]
use crate::audio::{
    click_samples, load_warning, preview_ends, preview_kept, preview_starts, voice_of, ChangeView,
    EngineView, PlanView, PreviewNote, SampleLoad, Voice,
};
#[allow(unused_imports)]
use crate::events::{schedule, NoteEvent};
#[allow(unused_imports)]
use crate::grid::{sample_at, span_samples, Tempo, UNITS_PER_STEP};
#[allow(unused_imports)]
use crate::pattern::PatternView;
#[allow(unused_imports)]
use crate::pianoroll::Scheme;
#[allow(unused_imports)]
use crate::playback::{
    a_loop_plays_the_whole_schedule, heard, lemma_due_end_bounds, the_transport_gets_in_step,
};
#[allow(unused_imports)]
use crate::project::{EffectState, ProjectView};
#[allow(unused_imports)]
use crate::timbre::{EffectKind, EffectSlot, Timbre, Waveform};
#[allow(unused_imports)]
use crate::timing::previews_and_ticks_last_their_time;
#[allow(unused_imports)]
use crate::tuning::{tuning_of, Ratio, TuningKind};

verus! {

// ---------------------------------------------------------------------------
// One sample
// ---------------------------------------------------------------------------

/// How many of the first `n` preview notes do not sound yet.
pub open spec fn count_waiting(s: Seq<PreviewNote>, n: int) -> nat
    decreases n,
{
    if n <= 0 {
        0
    } else {
        count_waiting(s, n - 1) + if s[n - 1].started {
            0nat
        } else {
            1
        }
    }
}

/// How many of the first `n` preview notes sound for more than this sample, or for
/// no more than it.
pub open spec fn count_ringing(s: Seq<PreviewNote>, on: bool, n: int) -> nat
    decreases n,
{
    if n <= 0 {
        0
    } else {
        count_ringing(s, on, n - 1) + if (s[n - 1].remaining > 1) == on {
            1nat
        } else {
            0
        }
    }
}

proof fn lemma_count_prefix(a: Seq<PreviewNote>, b: Seq<PreviewNote>, n: int)
    requires
        0 <= n <= a.len() <= b.len(),
        forall|i: int| 0 <= i < a.len() ==> a[i] == b[i],
    ensures
        count_waiting(a, n) == count_waiting(b, n),
        count_ringing(a, true, n) == count_ringing(b, true, n),
        count_ringing(a, false, n) == count_ringing(b, false, n),
    decreases n,
{
    if n > 0 {
        lemma_count_prefix(a, b, n - 1);
        assert(a[n - 1] == b[n - 1]);
    }
}

proof fn lemma_previews_at(s: Seq<PreviewNote>, sample: usize, i: int)
    requires
        0 <= i <= s.len(),
    ensures
        preview_starts(s, sample).len() == count_waiting(s, s.len() as int),
        preview_ends(s, sample).len() == count_ringing(s, false, s.len() as int),
        preview_kept(s).len() == count_ringing(s, true, s.len() as int),
        i < s.len() && !s[i].started ==> count_waiting(s, i) < preview_starts(s, sample).len()
            && preview_starts(s, sample)[count_waiting(s, i) as int] == (NoteEvent::NoteOn {
            time: sample,
            channel: 0,
            note: s[i].note,
            velocity: 1_143_000,
        }),
        i < s.len() && s[i].remaining <= 1 ==> count_ringing(s, false, i) < preview_ends(
            s,
            sample,
        ).len() && preview_ends(s, sample)[count_ringing(s, false, i) as int] == (
        NoteEvent::NoteOff { time: sample, channel: 0, note: s[i].note, velocity: 0 }),
        i < s.len() && s[i].remaining > 1 ==> count_ringing(s, true, i) < preview_kept(s).len()
            && preview_kept(s)[count_ringing(s, true, i) as int] == (PreviewNote {
            note: s[i].note,
            started: true,
            remaining: (s[i].remaining - 1) as usize,
        }),
    decreases s.len(),
{
    if s.len() > 0 {
        let rest = s.drop_last();
        let n = rest.len() as int;
        lemma_count_prefix(rest, s, n);
        if i < n {
            lemma_previews_at(rest, sample, i);
            lemma_count_prefix(rest, s, i);
            assert(rest[i] == s[i]);
        } else {
            lemma_previews_at(rest, sample, n);
        }
    }
}

/// How many events of the schedule are played at this sample.
pub open spec fn count_scheduled(e: EngineView) -> int {
    if e.playing {
        e.fired_to() - e.events_pos
    } else {
        0
    }
}

/// A sample plays the events of the schedule that are due, in their order, only
/// while the transport plays; then the stop, where one is pending; then the starts
/// of the preview notes that do not sound yet, and then the ends of those whose
/// time is over, and nothing else.
pub proof fn a_sample_plays_events_in_order(e: EngineView, k: int, i: int)
    requires
        e.wf(),
    ensures
        ({
            let all = e.frame().events;
            let n = count_scheduled(e);
            let stop: int = if e.stop_pending {
                1
            } else {
                0
            };
            let waiting = count_waiting(e.preview, e.preview.len() as int);
            let over = count_ringing(e.preview, false, e.preview.len() as int);
            &&& n >= 0
            &&& all.len() == n + stop + waiting + over
            &&& 0 <= k < n ==> all[k] == e.events[e.events_pos + k].1
            &&& e.stop_pending ==> all[n] == NoteEvent::ImmediateStop
            &&& 0 <= i < e.preview.len() && !e.preview[i].started ==> all[n + stop + count_waiting(
                e.preview,
                i,
            )] == (NoteEvent::NoteOn {
                time: e.sample_counter,
                channel: 0,
                note: e.preview[i].note,
                velocity: 1_143_000,
            })
            &&& 0 <= i < e.preview.len() && e.preview[i].remaining <= 1 ==> all[n + stop + waiting
                + count_ringing(e.preview, false, i)] == (NoteEvent::NoteOff {
                time: e.sample_counter,
                channel: 0,
                note: e.preview[i].note,
                velocity: 0,
            })
        }),
{
    let at = if 0 <= i < e.preview.len() {
        i
    } else {
        0
    };
    lemma_previews_at(e.preview, e.sample_counter, at);
    lemma_due_end_bounds(e.events, e.events_pos as int, e.sample_counter);
}

/// The next sample keeps the preview notes that sound on, a sample shorter, and
/// drops the others; the pending stop is over. The playhead goes on by one, round
/// the loop, only while the transport plays, and everything but playhead, cursor,
/// preview notes, stop and tick stays.
pub proof fn the_next_sample_goes_on(e: EngineView, i: int)
    requires
        e.wf(),
    ensures
        ({
            let r = e.advanced();
            &&& r == (EngineView {
                stop_pending: false,
                preview: r.preview,
                click: r.click,
                sample_counter: r.sample_counter,
                events_pos: r.events_pos,
                ..e
            })
            &&& !e.playing ==> r.sample_counter == e.sample_counter && r.events_pos
                == e.events_pos && r.click == e.click
            &&& e.playing && e.sample_counter + 1 < e.loop_samples ==> r.sample_counter
                == e.sample_counter + 1
            &&& e.playing && e.sample_counter + 1 == e.loop_samples ==> r.sample_counter == 0
                && r.events_pos == 0
            &&& e.playing ==> r.sample_counter < e.loop_samples
            &&& !e.metronome ==> r.click == e.click && e.frame().tone is None
            &&& !e.playing ==> e.frame().tone is None
            &&& r.preview.len() == count_ringing(e.preview, true, e.preview.len() as int)
            &&& 0 <= i < e.preview.len() && e.preview[i].remaining > 1 ==> r.preview[count_ringing(
                e.preview,
                true,
                i,
            ) as int] == (PreviewNote {
                note: e.preview[i].note,
                started: true,
                remaining: (e.preview[i].remaining - 1) as usize,
            })
        }),
{
    let at = if 0 <= i < e.preview.len() {
        i
    } else {
        0
    };
    lemma_previews_at(e.preview, e.sample_counter, at);
    let l = e.loop_samples as int;
    let c = e.sample_counter + 1;
    assert(0 <= c % l < l) by (nonlinear_arith)
        requires
            l > 0,
    ;
    if c < l {
        assert(c % l == c) by (nonlinear_arith)
            requires
                0 <= c < l,
        ;
    }
    if c == l {
        assert(c % l == 0) by (nonlinear_arith)
            requires
                c == l,
                l > 0,
        ;
    }
}

/// A preview note sounds 48 rows above its degree, for 120 ms, and only while the
/// transport stands still and fewer than 24 sound. It is put behind the others,
/// and nothing else changes.
pub proof fn a_preview_is_asked_for(e: EngineView, pitch: i32)
    ensures
        ({
            let r = e.preview_note(pitch);
            let p = r.preview.last();
            &&& e.playing || e.preview.len() >= 24 ==> r == e
            &&& !e.playing && e.preview.len() < 24 ==> {
                &&& r == (EngineView { preview: e.preview.push(p), ..e })
                &&& !p.started
                &&& pitch >= -48 ==> p.note == pitch + 48
                &&& pitch < -48 ==> p.note == 0
                &&& p.remaining * 1000 <= 120 * e.sample_rate < p.remaining * 1000 + 1000
            }
        }),
{
    previews_and_ticks_last_their_time(e.sample_rate);
}

/// The cursor stands in front of the first event that the playhead has not passed:
/// after a seek, a rewind, a start, a new pattern and a new tempo, all events before
/// the cursor lie before the playhead, and no other event does.
pub proof fn the_cursor_follows_the_playhead(
    e: EngineView,
    units: nat,
    p: PatternView,
    bpm: Tempo,
    i: int,
)
    requires
        e.wf(),
        e.set_pattern(p).wf(),
        e.set_tempo(bpm).wf(),
    ensures
        is_passed(e.seek_to_step(units), i),
        is_passed(e.rewind(), i),
        !e.playing ==> is_passed(e.set_playing(true), i),
        is_passed(e.set_pattern(p), i),
        is_passed(e.set_tempo(bpm), i),
{
    the_transport_gets_in_step(e, units, p, bpm);
}

/// Event `i` lies before the cursor if and only if the playhead has passed it.
pub open spec fn is_passed(e: EngineView, i: int) -> bool {
    0 <= i < e.events.len() ==> (i < e.events_pos <==> e.events[i].0 < e.sample_counter)
}

/// One pass over the loop plays every event of the schedule once, in order.
pub proof fn a_loop_plays_each_event_once(e: EngineView, i: int)
    requires
        e.wf(),
        e.playing,
        e.sample_counter == 0,
        e.events_pos == 0,
    ensures
        heard(e, e.loop_samples as nat).len() == e.events.len(),
        0 <= i < e.events.len() ==> heard(e, e.loop_samples as nat)[i] == e.events[i].1,
{
    a_loop_plays_the_whole_schedule(e);
}

// ---------------------------------------------------------------------------
// The transport
// ---------------------------------------------------------------------------

/// A new pattern, or a new tempo, is taken over with its loop and its schedule; the
/// playhead stays where it is, and so does everything else. A tempo below one beat
/// per minute counts as one.
pub proof fn songs_are_taken_over(e: EngineView, p: PatternView, bpm: Tempo)
    requires
        bpm.den > 0,
    ensures
        ({
            let r = e.set_pattern(p);
            &&& r == (EngineView {
                pattern: p,
                loop_samples: r.loop_samples,
                events: r.events,
                events_pos: r.events_pos,
                ..e
            })
            &&& r.loop_samples == span_samples(p.total_steps as int, e.sample_rate, e.tempo)
            &&& r.events == schedule(p.notes, e.sample_rate, e.tempo, r.loop_samples)
        }),
        ({
            let r = e.set_tempo(bpm);
            &&& r == (EngineView {
                tempo: r.tempo,
                loop_samples: r.loop_samples,
                events: r.events,
                events_pos: r.events_pos,
                ..e
            })
            &&& bpm.num >= bpm.den ==> r.tempo == bpm
            &&& bpm.num < bpm.den ==> r.tempo.num == r.tempo.den && r.tempo.den > 0
            &&& r.loop_samples == span_samples(
                e.pattern.total_steps as int,
                e.sample_rate,
                r.tempo,
            )
            &&& r.events == schedule(e.pattern.notes, e.sample_rate, r.tempo, r.loop_samples)
        }),
{
}

/// Seeking puts the playhead on the sample of the position, round the loop, and
/// silences what rings. While playing, a stop then returns there. Nothing else
/// changes but the cursor.
pub proof fn seeking_moves_the_playhead(e: EngineView, units: nat)
    requires
        e.wf(),
    ensures
        ({
            let r = e.seek_to_step(units);
            let s = sample_at(units as int, e.sample_rate, e.tempo);
            &&& r == (EngineView {
                sample_counter: r.sample_counter,
                events_pos: r.events_pos,
                play_start_pos: r.play_start_pos,
                stop_pending: true,
                ..e
            })
            &&& r.sample_counter < e.loop_samples
            &&& s < e.loop_samples ==> r.sample_counter == s
            &&& s == e.loop_samples ==> r.sample_counter == 0
            &&& exists|rounds: int| s == #[trigger] (rounds * e.loop_samples) + r.sample_counter
            &&& e.playing ==> r.play_start_pos == r.sample_counter
            &&& !e.playing ==> r.play_start_pos == e.play_start_pos
        }),
{
    let s = sample_at(units as int, e.sample_rate, e.tempo) as int;
    let l = e.loop_samples as int;
    let q = s / l;
    assert(s == q * l + s % l && 0 <= s % l < l) by (nonlinear_arith)
        requires
            q == s / l,
            l > 0,
    ;
    if s < l {
        assert(s % l == s) by (nonlinear_arith)
            requires
                0 <= s < l,
        ;
    }
    if s == l {
        assert(s % l == 0) by (nonlinear_arith)
            requires
                s == l,
                l > 0,
        ;
    }
}

/// Starting remembers the playhead and changes nothing else but the cursor;
/// stopping returns to the remembered place and silences what rings. To start what
/// plays, or to stop what stands still, does nothing.
pub proof fn starting_and_stopping(e: EngineView)
    ensures
        ({
            let r = e.set_playing(true);
            &&& e.playing ==> r == e
            &&& !e.playing ==> r == (EngineView {
                playing: true,
                play_start_pos: e.sample_counter,
                events_pos: r.events_pos,
                ..e
            })
        }),
        !e.playing ==> e.set_playing(false) == e,
        e.playing ==> e.set_playing(false) == (EngineView {
            playing: false,
            stop_pending: true,
            sample_counter: e.play_start_pos,
            ..e
        }),
{
}

/// Rewinding puts the playhead and the cursor at the start and silences what rings;
/// while playing, a stop then returns there. Nothing else changes.
pub proof fn rewinding_goes_to_the_start(e: EngineView)
    ensures
        e.rewind() == (EngineView {
            sample_counter: 0,
            events_pos: 0,
            stop_pending: true,
            play_start_pos: e.rewind().play_start_pos,
            ..e
        }),
        e.playing ==> e.rewind().play_start_pos == 0,
        !e.playing ==> e.rewind().play_start_pos == e.play_start_pos,
{
}

// ---------------------------------------------------------------------------
// The sound
// ---------------------------------------------------------------------------

/// The generator is planned after the state of the engine: it plays a sample only
/// where one is the source, in the tuning, timbre and manner that are set.
pub proof fn the_generator_follows_the_engine(e: EngineView)
    ensures
        e.plan().tuning == tuning_of(e.tuning_kind, e.custom_ratios),
        e.plan().waveform == e.timbre.waveform,
        e.plan().timbre == e.timbre,
        e.plan().one_shot == e.sample_one_shot,
        e.using_sample ==> e.plan().sample == e.sample_path,
        !e.using_sample ==> e.plan().sample is None,
{
}

/// A generator plays its sample where it has one that is ready or was resampled;
/// in every other case it plays its waveform. Only a failed load has a warning.
pub proof fn a_failed_sample_falls_back_to_the_wave(plan: PlanView, load: SampleLoad)
    ensures
        voice_of(plan, load) == Voice::Sample <==> plan.sample is Some && (load
            == SampleLoad::Ready || load == SampleLoad::Resampled),
        voice_of(plan, load) != Voice::Sample ==> voice_of(plan, load) == Voice::Wave(
            plan.waveform,
        ),
        load == SampleLoad::Ready || load == SampleLoad::Resampled <==> load_warning(load).len()
            == 0,
        load_warning(SampleLoad::Failed) == "failed to load sample"@,
        load_warning(SampleLoad::ResampleFailed) == "sample resample failed"@,
        load_warning(SampleLoad::ResamplePanicked) == "sample resample thread panicked"@,
{
    reveal_strlit("failed to load sample");
    reveal_strlit("sample resample failed");
    reveal_strlit("sample resample thread panicked");
    reveal_strlit("");
}

/// Each setting of the sound changes that setting alone, and the generator only as
/// far as it must: another waveform or tuning builds a new one, another envelope
/// sets the running one, and what is not heard leaves it alone.
pub proof fn settings_change_alone(
    e: EngineView,
    t: Timbre,
    kind: TuningKind,
    on: bool,
    ratios: Seq<Ratio>,
)
    ensures
        e.set_timbre(t) == (EngineView { timbre: t, ..e }),
        e.set_tuning(kind) == (EngineView { tuning_kind: kind, ..e }),
        e.set_sample_one_shot(on) == (EngineView { sample_one_shot: on, ..e }),
        e.set_custom_ratios(ratios) == (EngineView { custom_ratios: ratios, ..e }),
        e.using_sample || t.waveform == e.timbre.waveform ==> e.timbre_change(t)
            == ChangeView::Retimbre(t),
        !e.using_sample && t.waveform != e.timbre.waveform ==> e.timbre_change(t)
            == ChangeView::Rebuild((EngineView { timbre: t, ..e }).plan()),
        kind == e.tuning_kind ==> e.tuning_change(kind) == ChangeView::Keep,
        kind != e.tuning_kind ==> e.tuning_change(kind) == ChangeView::Rebuild(
            (EngineView { tuning_kind: kind, ..e }).plan(),
        ),
        !e.using_sample || on == e.sample_one_shot ==> e.one_shot_change(on) == ChangeView::Keep,
        e.using_sample && on != e.sample_one_shot ==> e.one_shot_change(on) == ChangeView::Rebuild(
            (EngineView { sample_one_shot: on, ..e }).plan(),
        ),
        e.tuning_kind != TuningKind::Custom ==> e.ratios_change(ratios) == ChangeView::Keep,
        e.tuning_kind == TuningKind::Custom ==> e.ratios_change(ratios) == ChangeView::Rebuild(
            (EngineView { custom_ratios: ratios, ..e }).plan(),
        ),
{
}

/// An effect slot is switched, or its wet amount set, alone; the amount is kept
/// between silence and full level, and a slot that is not there changes nothing.
pub proof fn effect_slots_change_alone(e: EngineView, i: int, on: bool, mix: i32, k: int)
    requires
        0 <= k < e.effects.len(),
    ensures
        ({
            let a = e.set_effect_on(i, on);
            let b = e.set_effect_mix(i, mix);
            &&& a == (EngineView { effects: a.effects, ..e })
            &&& b == (EngineView { effects: b.effects, ..e })
            &&& a.effects.len() == e.effects.len()
            &&& b.effects.len() == e.effects.len()
            &&& a.effects[k].kind == e.effects[k].kind
            &&& b.effects[k].kind == e.effects[k].kind
            &&& a.effects[k].mix == e.effects[k].mix
            &&& b.effects[k].on == e.effects[k].on
            &&& k == i ==> a.effects[k].on == on
            &&& k != i ==> a.effects[k].on == e.effects[k].on
            &&& k != i ==> b.effects[k].mix == e.effects[k].mix
            &&& k == i && 0 <= mix <= 1_270_000 ==> b.effects[k].mix == mix
            &&& k == i && mix < 0 ==> b.effects[k].mix == 0
            &&& k == i && mix > 1_270_000 ==> b.effects[k].mix == 1_270_000
        }),
{
}

/// A new engine stands still at the start of the starter melody, at 120 beats per
/// minute, in the tuning it was made for, with a sine, the effects off, the
/// metronome off at half level, and no sample.
pub proof fn a_new_engine_stands_still(sample_rate: usize, kind: TuningKind)
    ensures
        ({
            let e = EngineView::fresh(sample_rate, kind);
            &&& e.sample_rate == sample_rate
            &&& e.tuning_kind == kind
            &&& e.tempo.num == 120 * e.tempo.den
            &&& e.tempo.den > 0
            &&& e.pattern == PatternView::demo()
            &&& e.loop_samples == span_samples(32, sample_rate, e.tempo)
            &&& e.events == schedule(e.pattern.notes, sample_rate, e.tempo, e.loop_samples)
            &&& e.sample_counter == 0
            &&& e.play_start_pos == 0
            &&& !e.playing
            &&& !e.stop_pending
            &&& e.preview.len() == 0
            &&& !e.using_sample
            &&& e.sample_path is None
            &&& !e.sample_one_shot
            &&& !e.metronome
            &&& 2 * e.metronome_volume == 1_270_000
            &&& e.custom_ratios.len() == 0
            &&& e.click.age >= click_samples(sample_rate)
            &&& e.timbre == (Timbre {
                waveform: Waveform::Sine,
                attack: 10_000,
                hold: 100_000,
                decay: 100_000,
                sustain: 1_270_000,
                release: 100_000,
                gain: 1_016_000,
            })
            &&& e.effects.len() == 2
            &&& e.effects[0] == (EffectSlot { kind: EffectKind::Lowpass, on: false, mix: 1_270_000 })
            &&& e.effects[1] == (EffectSlot { kind: EffectKind::Delay, on: false, mix: 635_000 })
        }),
{
}

// ---------------------------------------------------------------------------
// Projects
// ---------------------------------------------------------------------------

/// A project holds what the engine plays and how; what the editor shows is as in a new
/// one.
pub proof fn a_project_holds_the_engine(e: EngineView, i: int)
    ensures
        ({
            let p = e.export_project();
            &&& p.pattern == e.pattern
            &&& p.tempo == e.tempo
            &&& p.tuning == e.tuning_kind
            &&& p.waveform == e.timbre.waveform
            &&& p.timbre == e.timbre
            &&& p.custom_ratios == e.custom_ratios
            &&& p.sample_one_shot == e.sample_one_shot
            &&& p.note_names.len() == 0
            &&& p.tonic == 0
            &&& p.scheme == Scheme::ByPitchClass
            &&& p.snap == UNITS_PER_STEP
            &&& p.clips.len() == 0
            &&& p.clip_names.len() == 0
            &&& p.active_clip == 0
            &&& p.row_h == 13_000
            &&& p.effects.len() == e.effects.len()
            &&& 0 <= i < e.effects.len() ==> p.effects[i].on == e.effects[i].on
                && p.effects[i].mix == e.effects[i].mix
        }),
{
}

proof fn lemma_with_effects(e: EngineView, states: Seq<EffectState>, k: int)
    requires
        0 <= k < e.effects.len(),
    ensures
        ({
            let r = e.with_effects(states);
            &&& r == (EngineView { effects: r.effects, ..e })
            &&& r.effects.len() == e.effects.len()
            &&& r.effects[k].kind == e.effects[k].kind
            &&& k >= states.len() ==> r.effects[k] == e.effects[k]
            &&& k < states.len() ==> r.effects[k].on == states[k].on
            &&& k < states.len() && 0 <= states[k].mix <= 1_270_000 ==> r.effects[k].mix
                == states[k].mix
            &&& k < states.len() && states[k].mix < 0 ==> r.effects[k].mix == 0
            &&& k < states.len() && states[k].mix > 1_270_000 ==> r.effects[k].mix == 1_270_000
        }),
    decreases states.len(),
{
    if states.len() > 0 {
        let rest = states.drop_last();
        lemma_with_effects(e, rest, k);
        if k < rest.len() {
            assert(rest[k] == states[k]);
        }
        let i = states.len() - 1;
        let r = e.with_effects(rest);
        effect_slots_change_alone(r, i, states[i].on, states[i].mix, k);
        effect_slots_change_alone(
            r.set_effect_on(i, states[i].on),
            i,
            states[i].on,
            states[i].mix,
            k,
        );
    }
}

/// A loaded project replaces the pattern, the tempo, the tuning, the timbre, the
/// effects it has and the one-shot switch; nothing else but loop, schedule and
/// cursor. A wet amount is kept between silence and full level.
pub proof fn a_loaded_project_replaces_the_sound(e: EngineView, p: ProjectView, k: int)
    requires
        p.tempo.den > 0,
        0 <= k < e.effects.len(),
    ensures
        ({
            let r = e.import_project(p);
            &&& r == (EngineView {
                pattern: p.pattern,
                tempo: r.tempo,
                tuning_kind: p.tuning,
                timbre: p.timbre,
                effects: r.effects,
                sample_one_shot: p.sample_one_shot,
                loop_samples: r.loop_samples,
                events: r.events,
                events_pos: r.events_pos,
                ..e
            })
            &&& p.tempo.num >= p.tempo.den ==> r.tempo == p.tempo
            &&& p.tempo.num < p.tempo.den ==> r.tempo.num == r.tempo.den
            &&& r.loop_samples == span_samples(
                p.pattern.total_steps as int,
                e.sample_rate,
                r.tempo,
            )
            &&& r.events == schedule(p.pattern.notes, e.sample_rate, r.tempo, r.loop_samples)
            &&& r.effects.len() == e.effects.len()
            &&& r.effects[k].kind == e.effects[k].kind
            &&& k >= p.effects.len() ==> r.effects[k] == e.effects[k]
            &&& k < p.effects.len() ==> r.effects[k].on == p.effects[k].on
            &&& k < p.effects.len() && 0 <= p.effects[k].mix <= 1_270_000 ==> r.effects[k].mix
                == p.effects[k].mix
            &&& k < p.effects.len() && p.effects[k].mix < 0 ==> r.effects[k].mix == 0
            &&& k < p.effects.len() && p.effects[k].mix > 1_270_000 ==> r.effects[k].mix
                == 1_270_000
        }),
{
    lemma_with_effects(
        e.with_song(p).set_tuning(p.tuning).set_timbre(p.timbre),
        p.effects,
        k,
    );
}

/// Loading a project builds a new generator for another tuning, for another
/// waveform unless a sample is played, and for another manner of playing a sample;
/// what is as it was leaves the generator alone.
pub proof fn a_loaded_project_rebuilds_what_changed(e: EngineView, p: ProjectView)
    ensures
        ({
            let c = e.import_changes(p);
            &&& c.len() == 3
            &&& p.tuning == e.tuning_kind ==> c[0] == ChangeView::Keep
            &&& p.tuning != e.tuning_kind ==> c[0] is Rebuild
            &&& p.timbre == e.timbre ==> c[1] == ChangeView::Keep
            &&& p.timbre != e.timbre && (p.timbre.waveform == e.timbre.waveform || e.using_sample)
                ==> c[1] == ChangeView::Retimbre(p.timbre)
            &&& p.timbre.waveform != e.timbre.waveform && !e.using_sample ==> c[1] is Rebuild
            &&& p.sample_one_shot == e.sample_one_shot || !e.using_sample ==> c[2]
                == ChangeView::Keep
            &&& p.sample_one_shot != e.sample_one_shot && e.using_sample ==> c[2] is Rebuild
            &&& c[0] matches ChangeView::Rebuild(plan) ==> plan.tuning == tuning_of(
                p.tuning,
                e.custom_ratios,
            )
            &&& c[1] matches ChangeView::Rebuild(plan) ==> plan.tuning == tuning_of(
                p.tuning,
                e.custom_ratios,
            ) && plan.timbre == p.timbre && plan.waveform == p.timbre.waveform
            &&& c[2] matches ChangeView::Rebuild(plan) ==> plan.tuning == tuning_of(
                p.tuning,
                e.custom_ratios,
            ) && plan.timbre == p.timbre && plan.one_shot == p.sample_one_shot && plan.sample
                == e.sample_path
        }),
{
    let tuned = e.with_song(p).set_tuning(p.tuning).set_timbre(p.timbre);
    lemma_effects_alone(tuned, p.effects);
}

pub(crate) proof fn lemma_effects_alone(e: EngineView, states: Seq<EffectState>)
    ensures
        e.with_effects(states) == (EngineView { effects: e.with_effects(states).effects, ..e }),
    decreases states.len(),
{
    if states.len() > 0 {
        lemma_effects_alone(e, states.drop_last());
    }
}

} // verus!
