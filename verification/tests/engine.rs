use simple_pianoroll::audio::{
    beat_at, Engine, Frame, GeneratorChange, SampleLoad, SeqContext, Tone, Voice,
};
use simple_pianoroll::events::NoteEvent;
use simple_pianoroll::grid::{Steps, Tempo, UNITS_PER_STEP};
use simple_pianoroll::level::{LEVEL_HALF, LEVEL_ONE, PREVIEW_VELOCITY};
use simple_pianoroll::pattern::Pattern;
use simple_pianoroll::pianoroll::Scheme;
use simple_pianoroll::project::EffectState;
use simple_pianoroll::timbre::{EffectKind, Setting, Timbre, Waveform};
use simple_pianoroll::tuning::{Ratio, TuningKind, TuningSystem};

const U: u128 = UNITS_PER_STEP as u128;

fn st(units: u128) -> Steps {
    Steps::from_units(units)
}

/// 400 samples per second, 120 beats per minute: 50 samples per step.
fn small_engine(steps: usize) -> Engine {
    let mut e = Engine::new(400, TuningKind::Equal12);
    e.set_pattern(Pattern::empty(steps));
    e
}

fn on(time: usize, note: usize, velocity: i32) -> NoteEvent {
    NoteEvent::NoteOn { time, channel: 0, note, velocity }
}

fn off(time: usize, note: usize, velocity: i32) -> NoteEvent {
    NoteEvent::NoteOff { time, channel: 0, note, velocity }
}

fn play(e: &mut Engine, samples: usize) -> Vec<(usize, NoteEvent)> {
    let mut out = Vec::new();
    for i in 0..samples {
        let f: Frame = e.next_sample();
        for ev in f.events {
            out.push((i, ev));
        }
    }
    out
}

#[test]
fn a_new_engine_is_stopped_on_the_demo() {
    let mut e = Engine::new(48_000, TuningKind::Edo19);
    assert!(!e.playing());
    assert_eq!(e.tempo(), Tempo::bpm(120));
    assert_eq!(e.pattern().notes.len(), 8);
    assert_eq!(e.tuning_kind(), TuningKind::Edo19);
    assert_eq!(e.tuning_steps(), 19);
    assert_eq!(e.playhead_step().units(), 0);
    assert_eq!(e.timbre(), Timbre::default());
    assert!(!e.metronome());
    assert_eq!(e.metronome_volume(), LEVEL_HALF);
    assert!(!e.using_sample());
    assert_eq!(e.sample_path(), None);
    assert!(play(&mut e, 100).is_empty());
    assert_eq!(e.playhead_step().units(), 0);
}

#[test]
fn a_loop_plays_every_event_once_and_repeats() {
    let mut e = small_engine(4);
    let mut p = Pattern::empty(4);
    p.add_note(0, st(0), st(U), 11);
    p.add_note(2, st(U), st(9 * U), 22);
    e.set_pattern(p);
    e.set_playing(true);
    let events = vec![
        (0, on(0, 48, 11)),
        (50, off(50, 48, 11)),
        (50, on(50, 50, 22)),
        (199, off(199, 50, 22)),
    ];
    assert_eq!(play(&mut e, 200), events);
    assert_eq!(e.playhead_step().units(), 0);
    assert_eq!(play(&mut e, 200), events);
}

#[test]
fn a_shorter_clip_is_silent_until_the_loop_ends() {
    let mut e = small_engine(8);
    e.set_playing(true);
    play(&mut e, 250);
    let mut p = Pattern::empty(4);
    p.add_note(0, st(3 * U), st(U), 11);
    e.set_pattern(p);
    // the playhead at 250 wraps to 51, past which nothing is played this time
    assert!(play(&mut e, 150).is_empty());
    assert_eq!(play(&mut e, 200).len(), 2);
}

#[test]
fn stopping_returns_and_silences() {
    let mut e = small_engine(4);
    e.seek_to_step(st(U));
    play(&mut e, 1);
    e.set_playing(true);
    play(&mut e, 70);
    assert_eq!(e.playhead_step().units(), 2 * U + 2 * U / 5);
    e.set_playing(false);
    assert_eq!(e.playhead_step().units(), U);
    assert_eq!(play(&mut e, 3), vec![(0, NoteEvent::ImmediateStop)]);
}

#[test]
fn seeking_while_playing_moves_the_stop_position() {
    let mut e = small_engine(4);
    e.set_playing(true);
    play(&mut e, 10);
    e.seek_to_step(st(2 * U));
    assert_eq!(e.playhead_step().units(), 2 * U);
    play(&mut e, 10);
    e.set_playing(false);
    assert_eq!(e.playhead_step().units(), 2 * U);
    e.set_playing(true);
    e.rewind();
    play(&mut e, 10);
    e.set_playing(false);
    assert_eq!(e.playhead_step().units(), 0);
    // seeking past the loop wraps round
    e.seek_to_step(st(5 * U));
    assert_eq!(e.playhead_step().units(), U);
}

#[test]
fn seeking_past_a_start_does_not_play_it() {
    let mut e = small_engine(4);
    let mut p = Pattern::empty(4);
    p.add_note(0, st(U), st(U), 11);
    e.set_pattern(p);
    e.seek_to_step(st(U + U / 2));
    e.set_playing(true);
    assert_eq!(
        play(&mut e, 125),
        vec![(0, NoteEvent::ImmediateStop), (25, off(100, 48, 11))]
    );
}

#[test]
fn tempo_changes_the_loop() {
    let mut e = small_engine(4);
    e.set_tempo(Tempo::bpm(240));
    e.set_playing(true);
    play(&mut e, 100);
    assert_eq!(e.playhead_step().units(), 0);
    e.set_tempo(Tempo { num: 1, den: 2 });
    assert_eq!(e.tempo(), Tempo::bpm(1));
}

#[test]
fn a_preview_rings_and_releases() {
    let mut e = small_engine(4);
    e.preview_note(3);
    // 400 samples per second: 48 samples
    assert_eq!(
        play(&mut e, 100),
        vec![(0, on(0, 51, PREVIEW_VELOCITY)), (47, off(0, 51, 0))]
    );
}

#[test]
fn previews_pile_up_to_a_limit_and_not_while_playing() {
    let mut e = small_engine(4);
    for i in 0..30 {
        e.preview_note(i);
    }
    assert_eq!(play(&mut e, 1).len(), 24);
    assert_eq!(play(&mut e, 60).len(), 24);
    e.set_playing(true);
    e.preview_note(1);
    assert!(play(&mut e, 60).is_empty());
}

#[test]
fn the_metronome_ticks_on_beats() {
    let mut e = small_engine(32);
    e.set_metronome(true);
    e.set_metronome_volume(2 * LEVEL_ONE);
    assert_eq!(e.metronome_volume(), LEVEL_ONE);
    assert_eq!(e.next_sample().tone, None);
    e.set_playing(true);
    let mut tones = Vec::new();
    for i in 0..1000 {
        if let Some(t) = e.next_sample().tone {
            tones.push((i, t));
        }
    }
    // 12 samples of a tick on each of five beats
    assert_eq!(tones.len(), 60);
    assert_eq!(tones[0], (0, Tone { age: 0, freq: 2000, gain: 2 * LEVEL_ONE }));
    assert_eq!(tones[11], (11, Tone { age: 11, freq: 2000, gain: 2 * LEVEL_ONE }));
    assert_eq!(tones[12], (200, Tone { age: 0, freq: 1000, gain: LEVEL_ONE }));
    assert_eq!(tones[48], (800, Tone { age: 0, freq: 2000, gain: 2 * LEVEL_ONE }));
    assert_eq!(beat_at(350, 400, Tempo::bpm(120), 8), 3);
    assert_eq!(beat_at(350, 400, Tempo::bpm(120), 4), 1);
}

#[test]
fn events_are_taken_last_first() {
    let mut c = SeqContext { events: vec![on(0, 1, 1), off(0, 2, 2)] };
    c.send_event(NoteEvent::ImmediateStop);
    assert_eq!(c.events().len(), 3);
    assert_eq!(c.next_event(), Some(NoteEvent::ImmediateStop));
    assert_eq!(c.next_event(), Some(off(0, 2, 2)));
    assert_eq!(c.next_event(), Some(on(0, 1, 1)));
    assert_eq!(c.next_event(), None);
}

#[test]
fn the_generator_is_rebuilt_when_it_must_be() {
    let mut e = small_engine(4);
    assert!(matches!(e.set_tuning(TuningKind::Equal12), GeneratorChange::Keep));
    match e.set_tuning(TuningKind::Edo31) {
        GeneratorChange::Rebuild(p) => {
            assert!(matches!(p.tuning.0, TuningSystem::NEdo(31)));
            assert_eq!(p.sample, None);
        }
        _ => panic!("a new tuning needs a new generator"),
    }
    let louder = Timbre { gain: LEVEL_ONE, ..e.timbre() };
    assert!(matches!(e.set_timbre(louder), GeneratorChange::Retimbre(t) if t == louder));
    let saw = Timbre { waveform: Waveform::Saw, ..louder };
    assert!(matches!(e.set_timbre(saw), GeneratorChange::Rebuild(p) if p.waveform == Waveform::Saw));
    assert!(matches!(e.set_sample_one_shot(true), GeneratorChange::Keep));
    match e.load_sample("kick.wav".to_string()) {
        GeneratorChange::Rebuild(p) => {
            assert_eq!(p.sample.as_deref(), Some("kick.wav"));
            assert!(p.one_shot);
            assert_eq!(p.voice(SampleLoad::Ready), Voice::Sample);
            assert_eq!(p.voice(SampleLoad::Resampled), Voice::Sample);
            assert_eq!(p.voice(SampleLoad::Failed), Voice::Wave(Waveform::Saw));
            assert_eq!(p.voice(SampleLoad::ResampleFailed), Voice::Wave(Waveform::Saw));
            assert_eq!(p.voice(SampleLoad::ResamplePanicked), Voice::Wave(Waveform::Saw));
        }
        _ => panic!("a sample needs a new generator"),
    }
    // with a sample as the source, a new waveform waits
    let sine = Timbre { waveform: Waveform::Sine, ..saw };
    assert!(matches!(e.set_timbre(sine), GeneratorChange::Retimbre(_)));
    assert!(matches!(e.set_sample_one_shot(true), GeneratorChange::Keep));
    assert!(matches!(e.set_sample_one_shot(false), GeneratorChange::Rebuild(_)));
    assert_eq!(e.sample_path().as_deref(), Some("kick.wav"));
    match e.use_wave() {
        GeneratorChange::Rebuild(p) => {
            assert_eq!(p.sample, None);
            assert_eq!(p.voice(SampleLoad::Ready), Voice::Wave(Waveform::Sine));
        }
        _ => panic!("back to the waveform needs a new generator"),
    }
    assert!(!e.using_sample());
}

#[test]
fn load_warnings() {
    assert_eq!(SampleLoad::Failed.warning(), "failed to load sample");
    assert_eq!(SampleLoad::ResampleFailed.warning(), "sample resample failed");
    assert_eq!(SampleLoad::ResamplePanicked.warning(), "sample resample thread panicked");
    assert_eq!(SampleLoad::Ready.warning(), "");
}

#[test]
fn a_custom_scale_sets_the_rows() {
    let mut e = small_engine(4);
    let ratios = vec![Ratio { num: 1, den: 1 }; 5];
    assert!(matches!(e.set_custom_ratios(ratios.clone()), GeneratorChange::Keep));
    assert_eq!(e.tuning_steps(), 12);
    e.set_tuning(TuningKind::Custom);
    assert_eq!(e.tuning_steps(), 5);
    assert!(matches!(e.set_custom_ratios(Vec::new()), GeneratorChange::Rebuild(_)));
    assert_eq!(e.tuning_steps(), 1);
}

#[test]
fn effects() {
    let mut e = small_engine(4);
    assert_eq!(e.effect_count(), 2);
    assert_eq!(e.effect_name(0), "Lowpass");
    assert_eq!(e.effect_name(1), "Delay");
    assert_eq!(e.effect_name(2), "");
    assert_eq!(EffectKind::Delay.label(), "Delay");
    assert_eq!((e.effect_on(0), e.effect_mix(0)), (false, LEVEL_ONE));
    assert_eq!((e.effect_on(1), e.effect_mix(1)), (false, LEVEL_HALF));
    e.set_effect_on(1, true);
    e.set_effect_mix(1, -3);
    e.set_effect_on(7, true);
    e.set_effect_mix(7, 3);
    assert_eq!((e.effect_on(1), e.effect_mix(1)), (true, 0));
    assert_eq!((e.effect_on(7), e.effect_mix(7)), (false, 0));
}

#[test]
fn timbre_parameters() {
    let t = Timbre::default();
    assert_eq!(
        t.settings(),
        vec![
            ("attack_time", Setting::Time(10_000)),
            ("hold_time", Setting::Time(100_000)),
            ("decay_time", Setting::Time(100_000)),
            ("sustain_level", Setting::Level(LEVEL_ONE)),
            ("release_time", Setting::Time(100_000)),
            ("gain", Setting::Level(1_016_000)),
        ]
    );
    let labels: Vec<&str> = Waveform::all().iter().map(|w| w.label()).collect();
    assert_eq!(labels, vec!["Sine", "Triangle", "Saw", "Square"]);
}

#[test]
fn a_project_restores_an_engine() {
    let mut a = small_engine(6);
    a.set_tempo(Tempo::bpm(90));
    a.set_tuning(TuningKind::Edo24);
    a.set_timbre(Timbre { waveform: Waveform::Square, attack: 5_000, ..Timbre::default() });
    a.set_effect_on(0, true);
    a.set_effect_mix(0, 1000);
    a.set_sample_one_shot(true);
    let p = a.export_project();
    assert_eq!(p.tonic, 0);
    assert_eq!(p.scheme, Scheme::ByPitchClass);
    assert_eq!(p.snap, st(U));
    assert_eq!(p.waveform, Waveform::Square);
    assert_eq!(p.effects[0], EffectState { on: true, mix: 1000 });
    assert_eq!(EffectState::default(), EffectState { on: false, mix: 0 });
    let mut b = small_engine(3);
    let changes = b.import_project(&p);
    assert_eq!(changes.len(), 3);
    assert!(matches!(changes[0], GeneratorChange::Rebuild(_)));
    assert!(matches!(changes[1], GeneratorChange::Rebuild(_)));
    assert!(matches!(changes[2], GeneratorChange::Keep));
    assert_eq!(b.pattern().total_steps, 6);
    assert_eq!(b.tempo(), Tempo::bpm(90));
    assert_eq!(b.tuning_kind(), TuningKind::Edo24);
    assert_eq!(b.timbre().waveform, Waveform::Square);
    assert_eq!((b.effect_on(0), b.effect_mix(0)), (true, 1000));
    assert!(b.sample_one_shot());
    let again = b.import_project(&p);
    assert!(again.iter().all(|c| matches!(c, GeneratorChange::Keep)));
}

#[test]
fn retuning_keeps_the_notes() {
    let mut a = Engine::new(400, TuningKind::Equal12);
    let mut b = Engine::new(400, TuningKind::Equal12);
    b.set_tuning(TuningKind::Edo53);
    assert_eq!(b.tuning_steps(), 53);
    a.set_playing(true);
    b.set_playing(true);
    assert_eq!(play(&mut a, 1600), play(&mut b, 1600));
    assert_eq!(a.playhead_step().units(), b.playhead_step().units());
}

#[test]
fn the_playhead_goes_round_and_a_stop_is_played_once() {
    let mut e = small_engine(4);
    e.seek_to_step(st(3 * U));
    e.set_playing(true);
    let stops = play(&mut e, 1234).iter().filter(|x| x.1 == NoteEvent::ImmediateStop).count();
    assert_eq!(stops, 1);
    // 150 + 1234 samples in a loop of 200
    assert_eq!(e.playhead_step(), st(184 * U / 50));
}
