//! The engine: the transport that plays a looping pattern sample by sample, the
//! editor's preview notes, the metronome, and the state of the track's voice.
//!
//! The engine decides what happens at each sample and how the sound generator
//! must change; it hands out the events, the metronome tone and the generator
//! changes as values.
use vstd::prelude::*;

use crate::events::{build_events, loop_samples, note_number, NoteEvent};
use crate::grid::{
    position_at, sample_of_step, steps_per_beat, Steps, Tempo, DEFAULT_TEMPO, UNITS_PER_STEP,
};
use crate::level::{clamp_level, LEVEL_HALF, LEVEL_ONE, PREVIEW_VELOCITY};
use crate::pattern::Pattern;
use crate::pianoroll::Scheme;
use crate::project::{EffectState, Project};
use crate::sort::partition_point;
use crate::timbre::{new_effects, EffectSlot, Timbre, Waveform};
use crate::tuning::{clone_ratios, resolve, Ratio, TuningKind, TuningWrapper};
#[allow(unused_imports)]
use crate::events::{is_schedule, schedule, sounding_note};
#[allow(unused_imports)]
use crate::grid::{beat_units, capped, sample_at, span_samples, units_at};
#[allow(unused_imports)]
use crate::level::clamped_level;
#[allow(unused_imports)]
use crate::pattern::PatternView;
#[allow(unused_imports)]
use crate::project::ProjectView;
#[allow(unused_imports)]
use crate::sort::{partition_at, sorted};
#[allow(unused_imports)]
use crate::timbre::{default_effects, default_timbre, effect_label};
#[allow(unused_imports)]
use crate::tuning::{rows_with_scale, tuning_of, TuningView};

verus! {

/// Most preview notes that ring at once.
pub const MAX_PREVIEWS: usize = 24;

/// Pitch of the metronome tick on the first beat of a bar, in hertz.
pub const BAR_CLICK_HZ: u32 = 2000;

/// Pitch of the metronome tick on the other beats, in hertz.
pub const BEAT_CLICK_HZ: u32 = 1000;

/// The height of a row when nothing is loaded, in thousandths of a pixel.
pub const DEFAULT_ROW_H: u32 = 13_000;

/// A short tone played to preview a pitch while editing.
/// Kept as a small list so rapidly re-previewed pitches each get released.
#[derive(Debug, Clone, Copy, PartialEq, Eq, Structural)]
pub struct PreviewNote {
    pub note: usize,
    pub started: bool,
    pub remaining: usize,
}

/// The metronome tick: the last beat that was counted, how many samples ago
/// the tick began, its pitch in hertz, and its gain in half levels.
#[derive(Debug, Clone, Copy, PartialEq, Eq, Structural)]
pub struct Click {
    pub last_beat: usize,
    pub age: usize,
    pub freq: u32,
    pub gain: i32,
}

/// A sample of the metronome tick, to be mixed into the output.
#[derive(Debug, Clone, Copy, PartialEq, Eq, Structural)]
pub struct Tone {
    /// Samples since the tick began.
    pub age: usize,
    /// Pitch in hertz.
    pub freq: u32,
    /// Gain in half levels.
    pub gain: i32,
}

/// What one sample of the transport asks for.
#[derive(Debug)]
pub struct Frame {
    /// The events that the generator gets at this sample, in order.
    pub events: Vec<NoteEvent>,
    /// The metronome tick, where it sounds.
    pub tone: Option<Tone>,
}

/// What a `Frame` is.
#[verifier::ext_equal]
pub struct FrameView {
    pub events: Seq<NoteEvent>,
    pub tone: Option<Tone>,
}

impl View for Frame {
    type V = FrameView;

    open spec fn view(&self) -> FrameView {
        FrameView { events: self.events@, tone: self.tone }
    }
}

/// How the sound generator is to be built.
#[derive(Debug)]
pub struct GeneratorPlan {
    pub tuning: TuningWrapper,
    pub waveform: Waveform,
    /// The audio file to play, where a sample is the sound source.
    pub sample: Option<String>,
    pub one_shot: bool,
    pub timbre: Timbre,
}

/// What a `GeneratorPlan` is.
#[verifier::ext_equal]
pub struct PlanView {
    pub tuning: TuningView,
    pub waveform: Waveform,
    pub sample: Option<Seq<char>>,
    pub one_shot: bool,
    pub timbre: Timbre,
}

/// An optional text as optional characters.
pub open spec fn text_option(s: Option<String>) -> Option<Seq<char>> {
    match s {
        Some(t) => Some(t@),
        None => None,
    }
}

impl View for GeneratorPlan {
    type V = PlanView;

    open spec fn view(&self) -> PlanView {
        PlanView {
            tuning: self.tuning@,
            waveform: self.waveform,
            sample: text_option(self.sample),
            one_shot: self.one_shot,
            timbre: self.timbre,
        }
    }
}

/// What has to happen to the sound generator after a change.
#[derive(Debug)]
pub enum GeneratorChange {
    /// Nothing.
    Keep,
    /// Set the envelope and gain of the running generator.
    Retimbre(Timbre),
    /// Build a new generator, and set its envelope and gain.
    Rebuild(GeneratorPlan),
}

/// What a `GeneratorChange` is.
#[verifier::ext_equal]
pub enum ChangeView {
    Keep,
    Retimbre(Timbre),
    Rebuild(PlanView),
}

impl View for GeneratorChange {
    type V = ChangeView;

    open spec fn view(&self) -> ChangeView {
        match *self {
            GeneratorChange::Keep => ChangeView::Keep,
            GeneratorChange::Retimbre(t) => ChangeView::Retimbre(t),
            GeneratorChange::Rebuild(p) => ChangeView::Rebuild(p@),
        }
    }
}

/// The contents of a list of generator changes.
pub open spec fn change_views(s: Seq<GeneratorChange>) -> Seq<ChangeView> {
    Seq::new(s.len(), |i: int| s[i]@)
}

/// How loading the sample file of a plan went.
#[derive(Debug, Clone, Copy, PartialEq, Eq, Structural)]
pub enum SampleLoad {
    /// The file could not be loaded.
    Failed,
    /// The file is loaded at the right rate.
    Ready,
    /// The file is loaded and was resampled.
    Resampled,
    /// Resampling failed.
    ResampleFailed,
    /// The resampling thread panicked.
    ResamplePanicked,
}

/// What a generator plays.
#[derive(Debug, Clone, Copy, PartialEq, Eq, Structural)]
pub enum Voice {
    Wave(Waveform),
    Sample,
}

/// What a built generator plays: the sample when there is one and it could be
/// loaded, the waveform otherwise.
pub open spec fn voice_of(plan: PlanView, load: SampleLoad) -> Voice {
    if plan.sample is Some && (load == SampleLoad::Ready || load == SampleLoad::Resampled) {
        Voice::Sample
    } else {
        Voice::Wave(plan.waveform)
    }
}

/// The warning that goes with the way a sample load went; empty for none.
pub open spec fn load_warning(load: SampleLoad) -> Seq<char> {
    match load {
        SampleLoad::Failed => "failed to load sample"@,
        SampleLoad::ResampleFailed => "sample resample failed"@,
        SampleLoad::ResamplePanicked => "sample resample thread panicked"@,
        SampleLoad::Ready => ""@,
        SampleLoad::Resampled => ""@,
    }
}

impl SampleLoad {
    /// The warning to print, empty for none.
    pub fn warning(self) -> (r: &'static str)
        ensures
            r@ == load_warning(self),
    {
        match self {
            SampleLoad::Failed => "failed to load sample",
            SampleLoad::ResampleFailed => "sample resample failed",
            SampleLoad::ResamplePanicked => "sample resample thread panicked",
            SampleLoad::Ready | SampleLoad::Resampled => "",
        }
    }
}

impl GeneratorPlan {
    /// What the generator plays, given how loading its sample went. A sample
    /// that could not be loaded falls through to the waveform.
    pub fn voice(&self, load: SampleLoad) -> (r: Voice)
        ensures
            r == voice_of(self@, load),
    {
        match self.sample {
            Some(_) => if load == SampleLoad::Ready || load == SampleLoad::Resampled {
                Voice::Sample
            } else {
                Voice::Wave(self.waveform)
            },
            None => Voice::Wave(self.waveform),
        }
    }
}

/// The events that a generator takes at one sample. It takes the one that was
/// put in last first.
#[derive(Debug)]
pub struct SeqContext {
    pub events: Vec<NoteEvent>,
}

impl SeqContext {
    /// Takes the next event.
    pub fn next_event(&mut self) -> (r: Option<NoteEvent>)
        ensures
            old(self).events@.len() == 0 ==> r is None && final(self).events@ == old(
                self,
            ).events@,
            old(self).events@.len() > 0 ==> r == Some(old(self).events@.last())
                && final(self).events@ == old(self).events@.drop_last(),
    {
        self.events.pop()
    }

    /// Puts an event in.
    pub fn send_event(&mut self, ev: NoteEvent)
        ensures
            final(self).events@ == old(self).events@.push(ev),
    {
        self.events.push(ev)
    }

    /// The events that are still to be taken.
    pub fn events(&self) -> (r: &Vec<NoteEvent>)
        ensures
            r@ == self.events@,
    {
        &self.events
    }
}

/// Shared engine state, read/written by the audio callback and the UI thread.
#[derive(Debug)]
pub struct Engine {
    tuning_kind: TuningKind,
    using_sample: bool,
    sample_path: Option<String>,
    /// One-shot (no loop) playback for the loaded sample.
    sample_one_shot: bool,
    sample_rate: usize,
    tempo: Tempo,
    pattern: Pattern,
    sample_counter: usize,
    loop_samples: usize,
    playing: bool,
    /// Ruler position when playback last started.
    play_start_pos: usize,
    stop_pending: bool,
    preview: Vec<PreviewNote>,
    timbre: Timbre,
    effects: Vec<EffectSlot>,
    metronome: bool,
    metronome_volume: i32,
    /// User ratios for the custom scale (relative to root).
    custom_ratios: Vec<Ratio>,
    /// Sorted (sample, event) schedule for the current pattern/loop.
    events: Vec<(usize, NoteEvent)>,
    /// Index of the next un-fired event in `events`.
    events_pos: usize,
    click: Click,
}

/// What an `Engine` is.
#[verifier::ext_equal]
pub struct EngineView {
    pub tuning_kind: TuningKind,
    pub using_sample: bool,
    pub sample_path: Option<Seq<char>>,
    pub sample_one_shot: bool,
    pub sample_rate: usize,
    pub tempo: Tempo,
    pub pattern: PatternView,
    pub sample_counter: usize,
    pub loop_samples: usize,
    pub playing: bool,
    pub play_start_pos: usize,
    pub stop_pending: bool,
    pub preview: Seq<PreviewNote>,
    pub timbre: Timbre,
    pub effects: Seq<EffectSlot>,
    pub metronome: bool,
    pub metronome_volume: i32,
    pub custom_ratios: Seq<Ratio>,
    pub events: Seq<(usize, NoteEvent)>,
    pub events_pos: usize,
    pub click: Click,
}

impl View for Engine {
    type V = EngineView;

    closed spec fn view(&self) -> EngineView {
        EngineView {
            tuning_kind: self.tuning_kind,
            using_sample: self.using_sample,
            sample_path: text_option(self.sample_path),
            sample_one_shot: self.sample_one_shot,
            sample_rate: self.sample_rate,
            tempo: self.tempo,
            pattern: self.pattern@,
            sample_counter: self.sample_counter,
            loop_samples: self.loop_samples,
            playing: self.playing,
            play_start_pos: self.play_start_pos,
            stop_pending: self.stop_pending,
            preview: self.preview@,
            timbre: self.timbre,
            effects: self.effects@,
            metronome: self.metronome,
            metronome_volume: self.metronome_volume,
            custom_ratios: self.custom_ratios@,
            events: self.events@,
            events_pos: self.events_pos,
            click: self.click,
        }
    }
}

// ---------------------------------------------------------------------------
// One sample of the transport
// ---------------------------------------------------------------------------

/// The index after the last event, from `pos` on, whose sample has arrived.
pub open spec fn due_end(events: Seq<(usize, NoteEvent)>, pos: int, sample: usize) -> int
    decreases events.len() - pos,
{
    if 0 <= pos < events.len() && events[pos].0 <= sample {
        due_end(events, pos + 1, sample)
    } else {
        pos
    }
}

/// The events of the schedule entries `from .. to`.
pub open spec fn fired(events: Seq<(usize, NoteEvent)>, from: int, to: int) -> Seq<NoteEvent> {
    Seq::new((to - from) as nat, |i: int| events[from + i].1)
}

/// The starts of the preview notes that do not ring yet.
pub open spec fn preview_starts(s: Seq<PreviewNote>, sample: usize) -> Seq<NoteEvent>
    decreases s.len(),
{
    if s.len() == 0 {
        seq![]
    } else {
        let rest = preview_starts(s.drop_last(), sample);
        if s.last().started {
            rest
        } else {
            rest.push(
                NoteEvent::NoteOn {
                    time: sample,
                    channel: 0,
                    note: s.last().note,
                    velocity: PREVIEW_VELOCITY,
                },
            )
        }
    }
}

/// A preview note one sample later.
pub open spec fn preview_aged(p: PreviewNote) -> PreviewNote {
    PreviewNote {
        note: p.note,
        started: true,
        remaining: if p.remaining == 0 {
            0
        } else {
            (p.remaining - 1) as usize
        },
    }
}

/// The releases of the preview notes that are over after this sample.
pub open spec fn preview_ends(s: Seq<PreviewNote>, sample: usize) -> Seq<NoteEvent>
    decreases s.len(),
{
    if s.len() == 0 {
        seq![]
    } else {
        let rest = preview_ends(s.drop_last(), sample);
        if preview_aged(s.last()).remaining == 0 {
            rest.push(
                NoteEvent::NoteOff { time: sample, channel: 0, note: s.last().note, velocity: 0 },
            )
        } else {
            rest
        }
    }
}

/// The preview notes that still ring after this sample.
pub open spec fn preview_kept(s: Seq<PreviewNote>) -> Seq<PreviewNote>
    decreases s.len(),
{
    if s.len() == 0 {
        seq![]
    } else {
        let rest = preview_kept(s.drop_last());
        if preview_aged(s.last()).remaining == 0 {
            rest
        } else {
            rest.push(preview_aged(s.last()))
        }
    }
}

/// How many samples a preview note rings: 120 ms.
pub open spec fn preview_samples(sample_rate: usize) -> usize {
    (sample_rate * 12 / 100) as usize
}

/// How many samples a metronome tick sounds: 30 ms, a part of a sample counted
/// as a whole one.
pub open spec fn click_samples(sample_rate: usize) -> usize {
    ((sample_rate * 3 + 99) / 100) as usize
}

/// The beat of the time signature that a sample falls on.
pub open spec fn beat_of(sample: int, sample_rate: usize, tempo: Tempo, beat_unit: u32) -> usize {
    capped(units_at(sample, sample_rate, tempo) / beat_units(beat_unit))
}

/// The metronome tick after beat `beat` was counted: a new beat starts a new
/// tick, higher and stronger on the first beat of a bar.
pub open spec fn click_on_beat(c: Click, beat: usize, beats_per_bar: u32, volume: i32) -> Click {
    let beats: int = if beats_per_bar < 1 {
        1
    } else {
        beats_per_bar as int
    };
    let bar = beat as int % beats == 0;
    if beat == c.last_beat {
        c
    } else {
        Click {
            last_beat: beat,
            age: 0,
            freq: if bar {
                BAR_CLICK_HZ
            } else {
                BEAT_CLICK_HZ
            },
            gain: if bar {
                (2 * volume) as i32
            } else {
                volume
            },
        }
    }
}

/// The sample of the tick that sounds now, if it still sounds.
pub open spec fn click_tone(c: Click, sample_rate: usize) -> Option<Tone> {
    if c.age < click_samples(sample_rate) {
        Some(Tone { age: c.age, freq: c.freq, gain: c.gain })
    } else {
        None
    }
}

/// The tick one sample later.
pub open spec fn click_aged(c: Click, sample_rate: usize) -> Click {
    if c.age < click_samples(sample_rate) {
        Click { age: (c.age + 1) as usize, ..c }
    } else {
        c
    }
}

impl EngineView {
    /// The schedule belongs to the pattern, the loop to pattern and tempo, and
    /// all levels are in range.
    pub open spec fn wf(self) -> bool {
        &&& self.tempo.wf()
        &&& self.tempo == self.tempo.floored()
        &&& self.loop_samples == span_samples(
            self.pattern.total_steps as int,
            self.sample_rate,
            self.tempo,
        )
        &&& self.loop_samples >= 1
        &&& self.events == schedule(
            self.pattern.notes,
            self.sample_rate,
            self.tempo,
            self.loop_samples,
        )
        &&& is_schedule(
            self.events,
            self.pattern.notes,
            self.sample_rate,
            self.tempo,
            self.loop_samples,
        )
        &&& self.events_pos <= self.events.len() <= usize::MAX
        &&& self.sample_counter < usize::MAX
        &&& self.play_start_pos < usize::MAX
        &&& 0 <= self.metronome_volume <= LEVEL_ONE
        &&& self.effects.len() == default_effects().len()
        &&& forall|i: int|
            0 <= i < self.effects.len() ==> 0 <= (#[trigger] self.effects[i]).mix <= LEVEL_ONE
        &&& self.preview.len() <= MAX_PREVIEWS
        &&& self.custom_ratios.len() <= i32::MAX
    }

    /// The beat that the playhead is on.
    pub open spec fn beat(self) -> usize {
        beat_of(self.sample_counter as int, self.sample_rate, self.tempo, self.pattern.beat_unit)
    }

    /// The metronome tick with the beat of the playhead counted.
    pub open spec fn counted_click(self) -> Click {
        click_on_beat(self.click, self.beat(), self.pattern.beats_per_bar, self.metronome_volume)
    }

    /// Whether the metronome runs at this sample.
    pub open spec fn ticking(self) -> bool {
        self.playing && self.metronome
    }

    /// The index after the last schedule entry that fires at this sample.
    pub open spec fn fired_to(self) -> int {
        if self.playing {
            due_end(self.events, self.events_pos as int, self.sample_counter)
        } else {
            self.events_pos as int
        }
    }

    /// What the engine asks for at this sample: the scheduled events that are
    /// due, the stop that is pending, starts and then ends of preview notes,
    /// and the metronome tick.
    pub open spec fn frame(self) -> FrameView {
        FrameView {
            events: fired(self.events, self.events_pos as int, self.fired_to()) + (
            if self.stop_pending {
                seq![NoteEvent::ImmediateStop]
            } else {
                seq![]
            }) + preview_starts(self.preview, self.sample_counter) + preview_ends(
                self.preview,
                self.sample_counter,
            ),
            tone: if self.ticking() {
                click_tone(self.counted_click(), self.sample_rate)
            } else {
                None
            },
        }
    }

    /// The playhead at the next sample; the loop starts over at its end.
    pub open spec fn next_counter(self) -> usize {
        if self.playing {
            ((self.sample_counter + 1) % self.loop_samples as int) as usize
        } else {
            self.sample_counter
        }
    }

    /// The engine at the next sample.
    pub open spec fn advanced(self) -> EngineView {
        EngineView {
            stop_pending: false,
            preview: preview_kept(self.preview),
            click: if self.ticking() {
                click_aged(self.counted_click(), self.sample_rate)
            } else {
                self.click
            },
            sample_counter: self.next_counter(),
            events_pos: if self.playing && self.next_counter() == 0 {
                0
            } else {
                self.fired_to() as usize
            },
            ..self
        }
    }
}

/// Plays the preview notes for one sample: the events go to `out`, the notes
/// that still ring are returned.
fn play_previews(
    preview: &Vec<PreviewNote>,
    sample: usize,
    out: &mut Vec<NoteEvent>,
) -> (r: Vec<PreviewNote>)
    ensures
        r@ == preview_kept(preview@),
        r.len() <= preview.len(),
        final(out)@ == old(out)@ + preview_starts(preview@, sample) + preview_ends(
            preview@,
            sample,
        ),
{
    let ghost all = preview@;
    let ghost before = out@;
    assert(before + preview_starts(all.take(0), sample) =~= before);
    for i in 0..preview.len()
        invariant
            all == preview@,
            out@ == before + preview_starts(all.take(i as int), sample),
    {
        assert(all.take(i + 1).drop_last() =~= all.take(i as int));
        let ghost prior = out@;
        if !preview[i].started {
            out.push(
                NoteEvent::NoteOn {
                    time: sample,
                    channel: 0,
                    note: preview[i].note,
                    velocity: PREVIEW_VELOCITY,
                },
            );
        }
        assert(out@ =~= before + preview_starts(all.take(i + 1), sample));
    }
    assert(all.take(all.len() as int) =~= all);
    let ghost started = out@;
    assert(started + preview_ends(all.take(0), sample) =~= started);
    let mut kept: Vec<PreviewNote> = Vec::new();
    for i in 0..preview.len()
        invariant
            all == preview@,
            kept@ == preview_kept(all.take(i as int)),
            kept.len() <= i,
            out@ == started + preview_ends(all.take(i as int), sample),
    {
        assert(all.take(i + 1).drop_last() =~= all.take(i as int));
        let p = preview[i];
        let remaining: usize = if p.remaining == 0 {
            0
        } else {
            p.remaining - 1
        };
        if remaining == 0 {
            out.push(NoteEvent::NoteOff { time: sample, channel: 0, note: p.note, velocity: 0 });
        } else {
            kept.push(PreviewNote { note: p.note, started: true, remaining });
        }
        assert(out@ =~= started + preview_ends(all.take(i + 1), sample));
    }
    assert(all.take(all.len() as int) =~= all);
    kept
}

/// How many samples a metronome tick sounds.
fn click_len(sample_rate: usize) -> (r: usize)
    ensures
        r == click_samples(sample_rate),
{
    ((sample_rate as u128 * 3 + 99) / 100) as usize
}

/// The beat of the time signature that a sample falls on.
pub fn beat_at(sample: usize, sample_rate: usize, tempo: Tempo, beat_unit: u32) -> (r: usize)
    requires
        tempo.wf(),
    ensures
        r == beat_of(sample as int, sample_rate, tempo, beat_unit),
{
    let units: u128 = position_at(sample, sample_rate, tempo).units();
    let beat: u128 = steps_per_beat(beat_unit);
    let q: u128 = units / beat;
    if q > usize::MAX as u128 {
        usize::MAX
    } else {
        q as usize
    }
}

proof fn lemma_due_end(events: Seq<(usize, NoteEvent)>, pos: int, sample: usize)
    requires
        0 <= pos <= events.len(),
    ensures
        pos <= due_end(events, pos, sample) <= events.len(),
    decreases events.len() - pos,
{
    if pos < events.len() && events[pos].0 <= sample {
        lemma_due_end(events, pos + 1, sample);
    }
}

impl Engine {
    /// Moves the cursor past the events whose sample has arrived, and hands
    /// those events to `out`.
    fn take_due(&mut self, out: &mut Vec<NoteEvent>)
        requires
            old(self)@.wf(),
        ensures
            final(out)@ == old(out)@ + fired(
                old(self)@.events,
                old(self)@.events_pos as int,
                due_end(
                    old(self)@.events,
                    old(self)@.events_pos as int,
                    old(self)@.sample_counter,
                ),
            ),
            final(self)@ == (EngineView {
                events_pos: due_end(
                    old(self)@.events,
                    old(self)@.events_pos as int,
                    old(self)@.sample_counter,
                ) as usize,
                ..old(self)@
            }),
            final(self)@.wf(),
    {
        let ghost all = self@.events;
        let ghost from = self@.events_pos as int;
        let ghost to = due_end(all, from, self@.sample_counter);
        let ghost before = out@;
        proof {
            lemma_due_end(all, from, self@.sample_counter);
        }
        assert(before + fired(all, from, from) =~= before);
        while self.events_pos < self.events.len() && self.events[self.events_pos].0
            <= self.sample_counter
            invariant
                old(self)@.wf(),
                self@ == (EngineView { events_pos: self.events_pos, ..old(self)@ }),
                all == self@.events,
                from <= self.events_pos <= to <= all.len(),
                to == due_end(all, self.events_pos as int, self@.sample_counter),
                out@ == before + fired(all, from, self.events_pos as int),
            decreases self.events.len() - self.events_pos,
        {
            let ghost prior = out@;
            let ghost pos = self.events_pos as int;
            proof {
                lemma_due_end(all, pos + 1, self@.sample_counter);
            }
            out.push(self.events[self.events_pos].1);
            assert(fired(all, from, pos + 1) =~= fired(all, from, pos).push(all[pos].1));
            assert(out@ =~= before + fired(all, from, pos + 1));
            self.events_pos = self.events_pos + 1;
        }
    }

    /// Counts the beat of the playhead and plays the metronome tick for one
    /// sample.
    fn tick_metronome(&mut self) -> (r: Option<Tone>)
        requires
            old(self)@.wf(),
        ensures
            r == click_tone(old(self)@.counted_click(), old(self)@.sample_rate),
            final(self)@ == (EngineView {
                click: click_aged(old(self)@.counted_click(), old(self)@.sample_rate),
                ..old(self)@
            }),
    {
        let beat = beat_at(
            self.sample_counter,
            self.sample_rate,
            self.tempo,
            self.pattern.beat_unit,
        );
        if beat != self.click.last_beat {
            let beats: usize = if self.pattern.beats_per_bar < 1 {
                1
            } else {
                self.pattern.beats_per_bar as usize
            };
            let bar = beat % beats == 0;
            self.click = Click {
                last_beat: beat,
                age: 0,
                freq: if bar {
                    BAR_CLICK_HZ
                } else {
                    BEAT_CLICK_HZ
                },
                gain: if bar {
                    2 * self.metronome_volume
                } else {
                    self.metronome_volume
                },
            };
        }
        assert(self.click == old(self)@.counted_click());
        if self.click.age < click_len(self.sample_rate) {
            let tone = Tone {
                age: self.click.age,
                freq: self.click.freq,
                gain: self.click.gain,
            };
            self.click.age = self.click.age + 1;
            Some(tone)
        } else {
            None
        }
    }

    /// Advance one sample: the events for the generator and the metronome tick.
    pub fn next_sample(&mut self) -> (r: Frame)
        requires
            old(self)@.wf(),
        ensures
            r@ == old(self)@.frame(),
            final(self)@ == old(self)@.advanced(),
            final(self)@.wf(),
    {
        let ghost e = self@;
        let mut events: Vec<NoteEvent> = Vec::new();
        let stop = self.stop_pending;
        self.stop_pending = false;
        if self.playing {
            self.take_due(&mut events);
        }
        let ghost scheduled = fired(e.events, e.events_pos as int, e.fired_to());
        assert(events@ =~= scheduled);
        if stop {
            events.push(NoteEvent::ImmediateStop);
        }
        let ghost stopped = events@;
        assert(stopped =~= scheduled + (if e.stop_pending {
            seq![NoteEvent::ImmediateStop]
        } else {
            seq![]
        }));
        let kept = play_previews(&self.preview, self.sample_counter, &mut events);
        self.preview = kept;
        let tone = if self.playing && self.metronome {
            self.tick_metronome()
        } else {
            None
        };
        if self.playing {
            self.sample_counter = (self.sample_counter + 1) % self.loop_samples;
            if self.sample_counter == 0 {
                self.events_pos = 0;
            }
        }
        proof {
            lemma_due_end(e.events, e.events_pos as int, e.sample_counter);
            assert(self@ =~= e.advanced());
        }
        Frame { events, tone }
    }
}

// ---------------------------------------------------------------------------
// Changes from the user interface
// ---------------------------------------------------------------------------

impl EngineView {
    /// The generator that the current state asks for.
    pub open spec fn plan(self) -> PlanView {
        PlanView {
            tuning: tuning_of(self.tuning_kind, self.custom_ratios),
            waveform: self.timbre.waveform,
            sample: if self.using_sample {
                self.sample_path
            } else {
                None
            },
            one_shot: self.sample_one_shot,
            timbre: self.timbre,
        }
    }

    /// Loop and schedule computed anew, the cursor at the first event that the
    /// playhead has not passed.
    pub open spec fn rescheduled(self) -> EngineView {
        let len = span_samples(self.pattern.total_steps as int, self.sample_rate, self.tempo);
        let events = schedule(self.pattern.notes, self.sample_rate, self.tempo, len);
        EngineView {
            loop_samples: len,
            events,
            events_pos: partition_at(events, self.sample_counter as int) as usize,
            ..self
        }
    }

    /// A new engine: the demo pattern, stopped at its start.
    pub open spec fn fresh(sample_rate: usize, kind: TuningKind) -> EngineView {
        EngineView {
            tuning_kind: kind,
            using_sample: false,
            sample_path: None,
            sample_one_shot: false,
            sample_rate,
            tempo: Tempo { num: DEFAULT_TEMPO, den: 1 },
            pattern: PatternView::demo(),
            sample_counter: 0,
            loop_samples: 0,
            playing: false,
            play_start_pos: 0,
            stop_pending: false,
            preview: Seq::empty(),
            timbre: default_timbre(),
            effects: default_effects(),
            metronome: false,
            metronome_volume: LEVEL_HALF,
            custom_ratios: Seq::empty(),
            events: Seq::empty(),
            events_pos: 0,
            click: Click {
                last_beat: usize::MAX,
                age: click_samples(sample_rate),
                freq: BEAT_CLICK_HZ,
                gain: 0,
            },
        }.rescheduled()
    }

    /// The engine with another pattern.
    pub open spec fn set_pattern(self, p: PatternView) -> EngineView {
        EngineView { pattern: p, ..self }.rescheduled()
    }

    /// The engine with another tempo.
    pub open spec fn set_tempo(self, bpm: Tempo) -> EngineView {
        EngineView { tempo: bpm.floored(), ..self }.rescheduled()
    }

    /// The playhead moved to a grid position. Notes do not ring across the
    /// jump, and while playing, Stop then returns to this place.
    pub open spec fn seek_to_step(self, units: nat) -> EngineView {
        let c = (sample_at(units as int, self.sample_rate, self.tempo) as int
            % self.loop_samples as int) as usize;
        EngineView {
            sample_counter: c,
            events_pos: partition_at(self.events, c as int) as usize,
            play_start_pos: if self.playing {
                c
            } else {
                self.play_start_pos
            },
            stop_pending: true,
            ..self
        }
    }

    /// The transport started or stopped. Starting remembers the playhead,
    /// stopping returns to it and silences what rings.
    pub open spec fn set_playing(self, playing: bool) -> EngineView {
        if playing && !self.playing {
            EngineView {
                playing: true,
                play_start_pos: self.sample_counter,
                events_pos: partition_at(self.events, self.sample_counter as int) as usize,
                ..self
            }
        } else if !playing && self.playing {
            EngineView {
                playing: false,
                stop_pending: true,
                sample_counter: self.play_start_pos,
                ..self
            }
        } else {
            self
        }
    }

    /// The playhead at the start of the loop.
    pub open spec fn rewind(self) -> EngineView {
        EngineView {
            sample_counter: 0,
            play_start_pos: if self.playing {
                0
            } else {
                self.play_start_pos
            },
            stop_pending: true,
            events_pos: 0,
            ..self
        }
    }

    /// A preview note asked for: none while playing, and none on top of a full
    /// list.
    pub open spec fn preview_note(self, pitch_index: i32) -> EngineView {
        if self.playing || self.preview.len() >= MAX_PREVIEWS {
            self
        } else {
            EngineView {
                preview: self.preview.push(
                    PreviewNote {
                        note: sounding_note(pitch_index),
                        started: false,
                        remaining: preview_samples(self.sample_rate),
                    },
                ),
                ..self
            }
        }
    }

    /// The engine with another timbre.
    pub open spec fn set_timbre(self, t: Timbre) -> EngineView {
        EngineView { timbre: t, ..self }
    }

    /// What another timbre does to the generator: a new waveform builds a new
    /// one unless a sample is the source.
    pub open spec fn timbre_change(self, t: Timbre) -> ChangeView {
        if t.waveform != self.timbre.waveform && !self.using_sample {
            ChangeView::Rebuild(self.set_timbre(t).plan())
        } else {
            ChangeView::Retimbre(t)
        }
    }

    /// The engine with another tuning.
    pub open spec fn set_tuning(self, kind: TuningKind) -> EngineView {
        EngineView { tuning_kind: kind, ..self }
    }

    /// What another tuning does to the generator.
    pub open spec fn tuning_change(self, kind: TuningKind) -> ChangeView {
        if kind == self.tuning_kind {
            ChangeView::Keep
        } else {
            ChangeView::Rebuild(self.set_tuning(kind).plan())
        }
    }

    /// The engine with one-shot playback of the sample on or off.
    pub open spec fn set_sample_one_shot(self, on: bool) -> EngineView {
        EngineView { sample_one_shot: on, ..self }
    }

    /// What switching one-shot playback does to the generator.
    pub open spec fn one_shot_change(self, on: bool) -> ChangeView {
        if on != self.sample_one_shot && self.using_sample {
            ChangeView::Rebuild(self.set_sample_one_shot(on).plan())
        } else {
            ChangeView::Keep
        }
    }

    /// The engine with another custom scale.
    pub open spec fn set_custom_ratios(self, ratios: Seq<Ratio>) -> EngineView {
        EngineView { custom_ratios: ratios, ..self }
    }

    /// What another custom scale does to the generator.
    pub open spec fn ratios_change(self, ratios: Seq<Ratio>) -> ChangeView {
        if self.tuning_kind == TuningKind::Custom {
            ChangeView::Rebuild(self.set_custom_ratios(ratios).plan())
        } else {
            ChangeView::Keep
        }
    }

    /// The engine with an effect slot switched, where there is such a slot.
    pub open spec fn set_effect_on(self, i: int, on: bool) -> EngineView {
        if 0 <= i < self.effects.len() {
            EngineView {
                effects: self.effects.update(i, EffectSlot { on, ..self.effects[i] }),
                ..self
            }
        } else {
            self
        }
    }

    /// The engine with the wet amount of an effect slot set, where there is
    /// such a slot.
    pub open spec fn set_effect_mix(self, i: int, mix: i32) -> EngineView {
        if 0 <= i < self.effects.len() {
            EngineView {
                effects: self.effects.update(
                    i,
                    EffectSlot { mix: clamped_level(mix), ..self.effects[i] },
                ),
                ..self
            }
        } else {
            self
        }
    }

    /// The engine with the first slots set to stored states.
    pub open spec fn with_effects(self, states: Seq<EffectState>) -> EngineView
        decreases states.len(),
    {
        if states.len() == 0 {
            self
        } else {
            let i = states.len() - 1;
            self.with_effects(states.drop_last()).set_effect_on(i, states[i].on).set_effect_mix(
                i,
                states[i].mix,
            )
        }
    }

    /// The engine with pattern and tempo of a project.
    pub open spec fn with_song(self, p: ProjectView) -> EngineView {
        self.set_pattern(p.pattern).set_tempo(p.tempo)
    }

    /// The engine with the state of a project.
    pub open spec fn import_project(self, p: ProjectView) -> EngineView {
        self.with_song(p).set_tuning(p.tuning).set_timbre(p.timbre).with_effects(
            p.effects,
        ).set_sample_one_shot(p.sample_one_shot)
    }

    /// What a project does to the generator: the changes for its tuning, its
    /// timbre and its one-shot switch, in this order.
    pub open spec fn import_changes(self, p: ProjectView) -> Seq<ChangeView> {
        let song = self.with_song(p);
        let tuned = song.set_tuning(p.tuning);
        let voiced = tuned.set_timbre(p.timbre).with_effects(p.effects);
        seq![
            song.tuning_change(p.tuning),
            if p.timbre == self.timbre {
                ChangeView::Keep
            } else {
                tuned.timbre_change(p.timbre)
            },
            voiced.one_shot_change(p.sample_one_shot),
        ]
    }

    /// The project that the engine state makes up, with no editor state.
    pub open spec fn export_project(self) -> ProjectView {
        ProjectView {
            pattern: self.pattern,
            tempo: self.tempo,
            tuning: self.tuning_kind,
            waveform: self.timbre.waveform,
            timbre: self.timbre,
            effects: Seq::new(
                self.effects.len(),
                |i: int| EffectState { on: self.effects[i].on, mix: self.effects[i].mix },
            ),
            note_names: Seq::empty(),
            tonic: 0,
            scheme: Scheme::ByPitchClass,
            snap: UNITS_PER_STEP as nat,
            clips: Seq::empty(),
            clip_names: Seq::empty(),
            active_clip: 0,
            custom_ratios: self.custom_ratios,
            sample_one_shot: self.sample_one_shot,
            row_h: DEFAULT_ROW_H,
        }
    }
}

impl Engine {
    /// A new engine: the demo pattern at the default tempo, not playing.
    pub fn new(sample_rate: usize, kind: TuningKind) -> (r: Engine)
        ensures
            r@ == EngineView::fresh(sample_rate, kind),
            r@.wf(),
    {
        let mut e = Engine {
            tuning_kind: kind,
            using_sample: false,
            sample_path: None,
            sample_one_shot: false,
            sample_rate,
            tempo: Tempo::bpm(DEFAULT_TEMPO),
            pattern: Pattern::demo(),
            sample_counter: 0,
            loop_samples: 0,
            playing: false,
            play_start_pos: 0,
            stop_pending: false,
            preview: Vec::new(),
            timbre: Timbre::default(),
            effects: new_effects(),
            metronome: false,
            metronome_volume: LEVEL_HALF,
            custom_ratios: Vec::new(),
            events: Vec::new(),
            events_pos: 0,
            click: Click {
                last_beat: usize::MAX,
                age: click_len(sample_rate),
                freq: BEAT_CLICK_HZ,
                gain: 0,
            },
        };
        e.reschedule();
        assert(e@ =~= EngineView::fresh(sample_rate, kind));
        e
    }

    /// Computes the loop length and the sorted event schedule for the current
    /// pattern and tempo, and re-points the cursor at the first event not yet
    /// passed.
    fn reschedule(&mut self)
        requires
            old(self)@.tempo.wf(),
        ensures
            final(self)@ == old(self)@.rescheduled(),
            final(self)@.events_pos <= final(self)@.events.len() <= usize::MAX,
            final(self)@.loop_samples >= 1,
            is_schedule(
                final(self)@.events,
                final(self)@.pattern.notes,
                final(self)@.sample_rate,
                final(self)@.tempo,
                final(self)@.loop_samples,
            ),
    {
        self.loop_samples = loop_samples(&self.pattern, self.sample_rate, self.tempo);
        self.events = build_events(
            &self.pattern,
            self.sample_rate,
            self.tempo,
            self.loop_samples,
        );
        self.events_pos = partition_point(&self.events, self.sample_counter as u64);
        assert(self.events@.len() == self.events.len());
        assert(self@ =~= old(self)@.rescheduled());
    }

    /// The generator that the current state asks for.
    pub fn generator_plan(&self) -> (r: GeneratorPlan)
        ensures
            r@ == self@.plan(),
    {
        let tuning = resolve(self.tuning_kind, &self.custom_ratios);
        let sample = if self.using_sample {
            self.sample_path()
        } else {
            None
        };
        let r = GeneratorPlan {
            tuning,
            waveform: self.timbre.waveform,
            sample,
            one_shot: self.sample_one_shot,
            timbre: self.timbre,
        };
        assert(r@ =~= self@.plan());
        r
    }

    // ---- metronome ----
    /// Whether the metronome is on.
    pub fn metronome(&self) -> (r: bool)
        ensures
            r == self@.metronome,
    {
        self.metronome
    }

    /// Switches the metronome.
    pub fn set_metronome(&mut self, on: bool)
        ensures
            final(self)@ == (EngineView { metronome: on, ..old(self)@ }),
            old(self)@.wf() ==> final(self)@.wf(),
    {
        self.metronome = on;
    }

    /// The volume of the metronome.
    pub fn metronome_volume(&self) -> (r: i32)
        ensures
            r == self@.metronome_volume,
    {
        self.metronome_volume
    }

    /// Sets the volume of the metronome, from silence to full level.
    pub fn set_metronome_volume(&mut self, v: i32)
        ensures
            final(self)@ == (EngineView { metronome_volume: clamped_level(v), ..old(self)@ }),
            old(self)@.wf() ==> final(self)@.wf(),
    {
        self.metronome_volume = clamp_level(v);
    }

    // ---- timbre ----
    /// The timbre of the track.
    pub fn timbre(&self) -> (r: Timbre)
        ensures
            r == self@.timbre,
    {
        self.timbre
    }

    /// Sets the timbre of the track.
    pub fn set_timbre(&mut self, t: Timbre) -> (r: GeneratorChange)
        ensures
            final(self)@ == old(self)@.set_timbre(t),
            r@ == old(self)@.timbre_change(t),
            old(self)@.wf() ==> final(self)@.wf(),
    {
        let wave_changed = t.waveform != self.timbre.waveform;
        self.timbre = t;
        if wave_changed && !self.using_sample {
            GeneratorChange::Rebuild(self.generator_plan())
        } else {
            GeneratorChange::Retimbre(t)
        }
    }

    /// Steps per octave, honoring the custom scale's size.
    pub fn tuning_steps(&self) -> (r: i32)
        requires
            self@.wf(),
        ensures
            r == rows_with_scale(self@.tuning_kind, self@.custom_ratios),
            r >= 1,
    {
        if self.tuning_kind == TuningKind::Custom {
            if self.custom_ratios.len() < 1 {
                1
            } else {
                self.custom_ratios.len() as i32
            }
        } else {
            self.tuning_kind.steps_per_octave() as i32
        }
    }

    /// Sets the custom scale.
    pub fn set_custom_ratios(&mut self, ratios: Vec<Ratio>) -> (r: GeneratorChange)
        requires
            ratios.len() <= i32::MAX,
        ensures
            final(self)@ == old(self)@.set_custom_ratios(ratios@),
            r@ == old(self)@.ratios_change(ratios@),
            old(self)@.wf() ==> final(self)@.wf(),
    {
        self.custom_ratios = ratios;
        if self.tuning_kind == TuningKind::Custom {
            GeneratorChange::Rebuild(self.generator_plan())
        } else {
            GeneratorChange::Keep
        }
    }

    // ---- sample source ----
    /// Whether a loaded sample is the sound source.
    pub fn using_sample(&self) -> (r: bool)
        ensures
            r == self@.using_sample,
    {
        self.using_sample
    }

    /// The file of the loaded sample.
    pub fn sample_path(&self) -> (r: Option<String>)
        ensures
            text_option(r) == self@.sample_path,
    {
        match &self.sample_path {
            Some(path) => Some(path.clone()),
            None => None,
        }
    }

    /// Whether the sample plays once instead of looping.
    pub fn sample_one_shot(&self) -> (r: bool)
        ensures
            r == self@.sample_one_shot,
    {
        self.sample_one_shot
    }

    /// Toggle one-shot (no-loop) playback of the loaded sample.
    pub fn set_sample_one_shot(&mut self, on: bool) -> (r: GeneratorChange)
        ensures
            final(self)@ == old(self)@.set_sample_one_shot(on),
            r@ == old(self)@.one_shot_change(on),
            old(self)@.wf() ==> final(self)@.wf(),
    {
        if self.sample_one_shot == on {
            return GeneratorChange::Keep;
        }
        self.sample_one_shot = on;
        if self.using_sample {
            GeneratorChange::Rebuild(self.generator_plan())
        } else {
            GeneratorChange::Keep
        }
    }

    /// Take an audio file as the track's sound source.
    pub fn load_sample(&mut self, path: String) -> (r: GeneratorChange)
        ensures
            final(self)@ == (EngineView {
                sample_path: Some(path@),
                using_sample: true,
                ..old(self)@
            }),
            r@ == ChangeView::Rebuild(final(self)@.plan()),
            old(self)@.wf() ==> final(self)@.wf(),
    {
        self.sample_path = Some(path);
        self.using_sample = true;
        GeneratorChange::Rebuild(self.generator_plan())
    }

    /// Switch back to the selected generated waveform.
    pub fn use_wave(&mut self) -> (r: GeneratorChange)
        ensures
            final(self)@ == (EngineView { using_sample: false, ..old(self)@ }),
            r@ == ChangeView::Rebuild(final(self)@.plan()),
            old(self)@.wf() ==> final(self)@.wf(),
    {
        self.using_sample = false;
        GeneratorChange::Rebuild(self.generator_plan())
    }

    // ---- effects ----
    /// The number of effect slots.
    pub fn effect_count(&self) -> (r: usize)
        ensures
            r == self@.effects.len(),
    {
        self.effects.len()
    }

    /// The name of an effect slot, empty where there is no such slot.
    pub fn effect_name(&self, i: usize) -> (r: &'static str)
        ensures
            r@ == if i < self@.effects.len() {
                effect_label(self@.effects[i as int].kind)
            } else {
                ""@
            },
    {
        if i < self.effects.len() {
            self.effects[i].kind.label()
        } else {
            ""
        }
    }

    /// Whether an effect slot is on; a missing one is off.
    pub fn effect_on(&self, i: usize) -> (r: bool)
        ensures
            r == (i < self@.effects.len() && self@.effects[i as int].on),
    {
        if i < self.effects.len() {
            self.effects[i].on
        } else {
            false
        }
    }

    /// The wet amount of an effect slot, zero where there is no such slot.
    pub fn effect_mix(&self, i: usize) -> (r: i32)
        ensures
            r == if i < self@.effects.len() {
                self@.effects[i as int].mix
            } else {
                0
            },
    {
        if i < self.effects.len() {
            self.effects[i].mix
        } else {
            0
        }
    }

    /// Switches an effect slot.
    pub fn set_effect_on(&mut self, i: usize, on: bool)
        ensures
            final(self)@ == old(self)@.set_effect_on(i as int, on),
            old(self)@.wf() ==> final(self)@.wf(),
    {
        if i < self.effects.len() {
            let slot = self.effects[i];
            self.effects.set(i, EffectSlot { on, ..slot });
        }
    }

    /// Sets the wet amount of an effect slot, from dry to fully wet.
    pub fn set_effect_mix(&mut self, i: usize, mix: i32)
        ensures
            final(self)@ == old(self)@.set_effect_mix(i as int, mix),
            old(self)@.wf() ==> final(self)@.wf(),
    {
        if i < self.effects.len() {
            let slot = self.effects[i];
            self.effects.set(i, EffectSlot { mix: clamp_level(mix), ..slot });
        }
    }

    /// Play a short preview tone for `pitch_index` (re-triggers on pitch change).
    pub fn preview_note(&mut self, pitch_index: i32)
        ensures
            final(self)@ == old(self)@.preview_note(pitch_index),
            old(self)@.wf() ==> final(self)@.wf(),
    {
        if self.playing {
            return ;
        }
        let note = note_number(pitch_index);
        if self.preview.len() >= MAX_PREVIEWS {
            return ;
        }
        let remaining: usize = (self.sample_rate as u128 * 12 / 100) as usize;
        self.preview.push(PreviewNote { note, started: false, remaining });
    }

    /// Jump the transport to the given grid step (may be fractional).
    pub fn seek_to_step(&mut self, step: Steps)
        requires
            old(self)@.wf(),
        ensures
            final(self)@ == old(self)@.seek_to_step(step@),
            final(self)@.wf(),
    {
        self.sample_counter = sample_of_step(step.units(), self.sample_rate, self.tempo)
            % self.loop_samples;
        self.events_pos = partition_point(&self.events, self.sample_counter as u64);
        if self.playing {
            self.play_start_pos = self.sample_counter;
        }
        self.stop_pending = true;
    }

    /// Switches the tuning. The pattern stays as it is.
    pub fn set_tuning(&mut self, kind: TuningKind) -> (r: GeneratorChange)
        ensures
            final(self)@ == old(self)@.set_tuning(kind),
            r@ == old(self)@.tuning_change(kind),
            old(self)@.wf() ==> final(self)@.wf(),
    {
        if self.tuning_kind == kind {
            return GeneratorChange::Keep;
        }
        self.tuning_kind = kind;
        GeneratorChange::Rebuild(self.generator_plan())
    }

    /// Sets the tempo; below one beat per minute it counts as one.
    pub fn set_tempo(&mut self, bpm: Tempo)
        requires
            bpm.wf(),
            old(self)@.wf(),
        ensures
            final(self)@ == old(self)@.set_tempo(bpm),
            final(self)@.wf(),
    {
        self.tempo = bpm.at_least_one();
        self.reschedule();
    }

    /// Starts or stops the transport.
    pub fn set_playing(&mut self, playing: bool)
        requires
            old(self)@.wf(),
        ensures
            final(self)@ == old(self)@.set_playing(playing),
            final(self)@.wf(),
    {
        if playing && !self.playing {
            self.play_start_pos = self.sample_counter;
            self.events_pos = partition_point(&self.events, self.sample_counter as u64);
        } else if !playing && self.playing {
            self.stop_pending = true;
            self.sample_counter = self.play_start_pos;
        }
        self.playing = playing;
    }

    /// Jump the transport back to the start of the loop.
    pub fn rewind(&mut self)
        ensures
            final(self)@ == old(self)@.rewind(),
            old(self)@.wf() ==> final(self)@.wf(),
    {
        self.sample_counter = 0;
        if self.playing {
            self.play_start_pos = 0;
        }
        self.stop_pending = true;
        self.events_pos = 0;
    }

    /// The chosen tuning.
    pub fn tuning_kind(&self) -> (r: TuningKind)
        ensures
            r == self@.tuning_kind,
    {
        self.tuning_kind
    }

    /// The tempo.
    pub fn tempo(&self) -> (r: Tempo)
        ensures
            r == self@.tempo,
    {
        self.tempo
    }

    /// Whether the transport runs.
    pub fn playing(&self) -> (r: bool)
        ensures
            r == self@.playing,
    {
        self.playing
    }

    /// Read-only access to the editable pattern.
    pub fn pattern(&self) -> (r: &Pattern)
        ensures
            r@ == self@.pattern,
    {
        &self.pattern
    }

    /// Replace the whole pattern (e.g. load a demo) and resync the loop.
    pub fn set_pattern(&mut self, p: Pattern)
        requires
            old(self)@.wf(),
        ensures
            final(self)@ == old(self)@.set_pattern(p@),
            final(self)@.wf(),
    {
        self.pattern = p;
        self.reschedule();
    }

    /// The grid step (fractional, tuplet-aware) the playhead is currently on.
    pub fn playhead_step(&self) -> (r: Steps)
        requires
            self@.wf(),
        ensures
            r@ == units_at(self@.sample_counter as int, self@.sample_rate, self@.tempo),
    {
        position_at(self.sample_counter, self.sample_rate, self.tempo)
    }

    // ---- project save/load ----
    /// Snapshot the current project state.
    pub fn export_project(&self) -> (r: Project)
        ensures
            r@ == self@.export_project(),
    {
        let mut effects: Vec<EffectState> = Vec::new();
        for i in 0..self.effects.len()
            invariant
                effects.len() == i,
                forall|j: int|
                    0 <= j < i ==> #[trigger] effects[j] == (EffectState {
                        on: self.effects[j].on,
                        mix: self.effects[j].mix,
                    }),
        {
            let slot = self.effects[i];
            effects.push(EffectState { on: slot.on, mix: slot.mix });
        }
        let r = Project {
            pattern: self.pattern.clone(),
            tempo: self.tempo,
            tuning: self.tuning_kind,
            waveform: self.timbre.waveform,
            timbre: self.timbre,
            effects,
            note_names: String::new(),
            tonic: 0,
            scheme: Scheme::ByPitchClass,
            snap: Steps::of(1),
            clips: Vec::new(),
            clip_names: Vec::new(),
            active_clip: 0,
            custom_ratios: clone_ratios(&self.custom_ratios),
            sample_one_shot: self.sample_one_shot,
            row_h: DEFAULT_ROW_H,
        };
        assert(r@ =~= self@.export_project());
        r
    }

    /// Apply a loaded project's engine state (pattern, tempo, tuning, timbre,
    /// effects), and say what it does to the generator.
    pub fn import_project(&mut self, p: &Project) -> (r: Vec<GeneratorChange>)
        requires
            old(self)@.wf(),
            p.tempo.wf(),
        ensures
            final(self)@ == old(self)@.import_project(p@),
            change_views(r@) == old(self)@.import_changes(p@),
            final(self)@.wf(),
    {
        let ghost start = self@;
        self.set_pattern(p.pattern.clone());
        self.set_tempo(p.tempo);
        let ghost song = self@;
        assert(song == start.with_song(p@));
        let tuned = self.set_tuning(p.tuning);
        let voiced = self.take_timbre(p.timbre);
        let ghost voice = self@;
        self.take_effects(&p.effects);
        let ghost played = self@;
        let shot = self.set_sample_one_shot(p.sample_one_shot);
        let ghost first = tuned@;
        let ghost second = voiced@;
        let ghost third = shot@;
        let r = vec![tuned, voiced, shot];
        proof {
            assert(voice == song.set_tuning(p@.tuning).set_timbre(p@.timbre));
            assert(played == voice.with_effects(p@.effects));
            assert(song.timbre == start.timbre);
            assert(change_views(r@) =~= seq![first, second, third]);
        }
        r
    }

    /// Takes a timbre where it is another one.
    fn take_timbre(&mut self, t: Timbre) -> (r: GeneratorChange)
        ensures
            final(self)@ == old(self)@.set_timbre(t),
            r@ == if t == old(self)@.timbre {
                ChangeView::Keep
            } else {
                old(self)@.timbre_change(t)
            },
            old(self)@.wf() ==> final(self)@.wf(),
    {
        if t != self.timbre {
            self.set_timbre(t)
        } else {
            assert(self@ =~= old(self)@.set_timbre(t));
            GeneratorChange::Keep
        }
    }

    /// Sets the first effect slots to stored states.
    fn take_effects(&mut self, states: &Vec<EffectState>)
        requires
            old(self)@.wf(),
        ensures
            final(self)@ == old(self)@.with_effects(states@),
            final(self)@.wf(),
    {
        let ghost before = self@;
        let ghost all = states@;
        assert(all.take(0) =~= Seq::<EffectState>::empty());
        for i in 0..states.len()
            invariant
                self@.wf(),
                all == states@,
                self@ == before.with_effects(all.take(i as int)),
        {
            let st = states[i];
            self.set_effect_on(i, st.on);
            self.set_effect_mix(i, st.mix);
            proof {
                assert(all.take(i + 1).drop_last() =~= all.take(i as int));
            }
        }
        assert(all.take(all.len() as int) =~= all);
    }
}

} // verus!
