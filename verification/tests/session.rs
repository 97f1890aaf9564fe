use simple_pianoroll::audio::{Engine, GeneratorChange};
use simple_pianoroll::events::NoteEvent;
use simple_pianoroll::grid::{Steps, Tempo, UNITS_PER_STEP};
use simple_pianoroll::level::LEVEL_ONE;
use simple_pianoroll::midi::{count_notes, ImportData, ImportedTrack};
use simple_pianoroll::pattern::Pattern;
use simple_pianoroll::pianoroll::{EditorState, Scheme};
use simple_pianoroll::project::needs_json;
use simple_pianoroll::session::{
    apply_scale, can_import, choose_tuning, import_midi, new_scale, open_project, press_transport,
    reset_names,
    resize_scale, save_project, stop_and_home, toggle_playing, transport_key,
    write_back, ImportOutcome, TransportKey,
};
use simple_pianoroll::tuning::{Ratio, TuningKind};
use simple_pianoroll::wasm_io::{drain, FileEvent};

const U: u128 = UNITS_PER_STEP as u128;

fn st(units: u128) -> Steps {
    Steps::from_units(units)
}

fn ratio(num: i32, den: i32) -> Ratio {
    Ratio { num, den }
}

#[test]
fn the_transport_buttons() {
    let mut e = Engine::new(400, TuningKind::Equal12);
    toggle_playing(&mut e);
    assert!(e.playing());
    e.next_sample();
    toggle_playing(&mut e);
    assert!(!e.playing());
    e.seek_to_step(st(3 * U));
    toggle_playing(&mut e);
    stop_and_home(&mut e);
    assert!(!e.playing());
    assert_eq!(e.playhead_step().units(), 0);
}

#[test]
fn edits_are_written_back() {
    let mut e = Engine::new(400, TuningKind::Equal12);
    let same = e.pattern().clone();
    write_back(&mut e, &same, &vec![1, 2], None);
    let events = e.next_sample().events;
    assert_eq!(events.len(), 2);
    assert!(matches!(events[0], NoteEvent::NoteOn { note: 49, .. }));
    let p = Pattern::empty(5);
    write_back(&mut e, &p, &vec![], Some(st(2 * U)));
    assert_eq!(e.pattern().total_steps, 5);
    assert_eq!(e.playhead_step().units(), 2 * U);
}

#[test]
fn the_scale_editor() {
    let mut scale = new_scale();
    assert_eq!(scale, vec![ratio(1, 1), ratio(9, 8), ratio(5, 4), ratio(3, 2)]);
    scale[0] = ratio(7, 5);
    resize_scale(&mut scale, 6);
    assert_eq!(
        scale,
        vec![ratio(1, 1), ratio(9, 8), ratio(5, 4), ratio(3, 2), ratio(2, 1), ratio(2, 1)]
    );
    resize_scale(&mut scale, 0);
    assert_eq!(scale, vec![ratio(1, 1)]);
    resize_scale(&mut scale, 1000);
    assert_eq!(scale.len(), 128);
}

#[test]
fn names_follow_the_tuning() {
    let mut e = Engine::new(400, TuningKind::Equal12);
    let mut ed = EditorState::start(e.pattern());
    let change = choose_tuning(&mut e, &mut ed, TuningKind::Edo19, 4);
    assert!(matches!(change, GeneratorChange::Rebuild(_)));
    assert_eq!(ed.names, "");
    ed.names = "x y".to_string();
    reset_names(&e, &mut ed);
    assert_eq!(ed.names, "");
    let mut scale = new_scale();
    resize_scale(&mut scale, 12);
    let changes = apply_scale(&mut e, &mut ed, &scale);
    assert_eq!(changes.len(), 2);
    assert!(matches!(changes[0], GeneratorChange::Keep));
    assert!(matches!(changes[1], GeneratorChange::Rebuild(_)));
    assert_eq!(e.tuning_steps(), 12);
    assert_eq!(ed.names, "C C# D D# E F F# G G# A A# B");
    choose_tuning(&mut e, &mut ed, TuningKind::Custom, 0);
    assert_eq!(ed.names, "");
}

#[test]
fn opening_restores_what_was_saved() {
    let mut e = Engine::new(400, TuningKind::Edo31);
    e.set_tempo(Tempo::bpm(77));
    let mut ed = EditorState::start(e.pattern());
    let mut pat = e.pattern().clone();
    ed.add_clip(&mut pat);
    pat.add_note(5, st(U), st(U), 9);
    ed.scheme = Scheme::Flat;
    ed.snap = st(3 * U);
    ed.tonic = 4;
    ed.row_h = 20_000;
    ed.names = "a b".to_string();
    let scale = new_scale();
    let saved = save_project(&e, &mut ed, &pat, &scale);
    assert_eq!(ed.clips[1].notes.len(), 1);

    let mut e2 = Engine::new(400, TuningKind::Equal12);
    let mut ed2 = EditorState::start(e2.pattern());
    ed2.selection.insert(3);
    let mut pat2 = Pattern::empty(1);
    let mut scale2 = Vec::new();
    let changes = open_project(&mut e2, &mut ed2, &mut pat2, &mut scale2, &saved);
    assert_eq!(changes.len(), 4);
    assert_eq!(e2.tuning_kind(), TuningKind::Edo31);
    assert_eq!(e2.tempo(), Tempo::bpm(77));
    assert_eq!(pat2.notes.len(), 1);
    assert_eq!(pat2.notes[0].pitch_index, 5);
    assert_eq!(e2.pattern().notes.len(), 1);
    assert_eq!(scale2, scale);
    assert_eq!(ed2.clips.len(), 2);
    assert_eq!(ed2.clip_names, vec!["Clip 0", "Clip 1"]);
    assert_eq!(ed2.active_clip, 1);
    assert_eq!((ed2.scheme, ed2.snap, ed2.tonic, ed2.row_h), (Scheme::Flat, st(3 * U), 4, 20_000));
    assert_eq!(ed2.names, "a b");
    assert!(ed2.selection.is_empty());
}

#[test]
fn a_project_without_clips_opens_its_pattern() {
    let mut e = Engine::new(400, TuningKind::Equal12);
    let saved = e.export_project();
    e.set_pattern(Pattern::empty(3));
    let mut ed = EditorState::default();
    let mut pat = Pattern::empty(1);
    let mut scale = new_scale();
    open_project(&mut e, &mut ed, &mut pat, &mut scale, &saved);
    assert_eq!(pat.notes.len(), 8);
    assert_eq!(ed.clips.len(), 1);
    assert_eq!(ed.clip_names, vec!["Clip 0"]);
    assert_eq!(e.pattern().notes.len(), 8);
    assert!(scale.is_empty());
    // an active clip that does not exist falls back to the last one
    let mut other = e.export_project();
    other.clips = vec![Pattern::empty(2), Pattern::empty(9)];
    other.active_clip = 7;
    open_project(&mut e, &mut ed, &mut pat, &mut scale, &other);
    assert_eq!(ed.active_clip, 1);
    assert_eq!(pat.total_steps, 9);
    assert_eq!(e.pattern().total_steps, 9);
}

fn file(selected: bool) -> ImportData {
    let track = |name: &str, key: u8| ImportedTrack {
        name: name.to_string(),
        notes: vec![(0, key, LEVEL_ONE, 480)],
        selected,
    };
    ImportData {
        tracks: vec![track("a", 50), track("b", 60)],
        tempo: Tempo::bpm(90),
        beats_per_bar: 3,
        beat_unit: 4,
        ppq: 480,
    }
}

#[test]
fn a_midi_file_becomes_the_clips() {
    let mut e = Engine::new(400, TuningKind::Equal12);
    let mut ed = EditorState::start(e.pattern());
    let mut pat = e.pattern().clone();
    let none = file(false);
    assert!(!can_import(&none));
    assert_eq!(
        import_midi(&mut e, &mut ed, &mut pat, &none, true),
        ImportOutcome::NothingSelected
    );
    assert_eq!(pat.notes.len(), 8);
    ed.selection.insert(2);
    assert_eq!(count_notes(&file(true)), Some(2));
    assert_eq!(count_notes(&none), Some(0));
    assert_eq!(
        import_midi(&mut e, &mut ed, &mut pat, &file(true), true),
        ImportOutcome::Imported
    );
    assert_eq!(ed.clip_names, vec!["a", "b"]);
    assert_eq!(ed.active_clip, 0);
    assert!(ed.selection.is_empty());
    assert_eq!(pat.notes[0].pitch_index, 2);
    assert_eq!(pat.beats_per_bar, 3);
    assert_eq!(e.tempo(), Tempo::bpm(90));
    assert_eq!(e.pattern().notes.len(), 1);
    ed.undo(&mut pat);
    assert_eq!(pat.notes.len(), 8);
}

#[test]
fn the_inbox_is_drained() {
    let mut inbox = vec![FileEvent::Midi(vec![1]), FileEvent::Project(vec![2, 3])];
    inbox.push(FileEvent::Sample(vec![]));
    let taken = drain(&mut inbox);
    assert_eq!(taken.len(), 3);
    assert!(matches!(&taken[1], FileEvent::Project(b) if b.len() == 2));
    assert!(inbox.is_empty());
    assert!(drain(&mut inbox).is_empty());
}

#[test]
fn the_transport_keys() {
    let k = |toggle: bool, rewind: bool| TransportKey { toggle, rewind };
    assert_eq!(transport_key(true, true, true, true), k(false, false));
    assert_eq!(transport_key(true, false, false, false), k(true, false));
    assert_eq!(transport_key(false, true, false, false), k(false, true));
    assert_eq!(transport_key(false, false, true, false), k(false, true));
    assert_eq!(transport_key(false, false, false, false), k(false, false));
    let mut e = Engine::new(400, TuningKind::Equal12);
    e.seek_to_step(st(3 * U));
    press_transport(&mut e, k(true, false));
    assert!(e.playing());
    press_transport(&mut e, k(false, true));
    assert!(e.playing());
    assert_eq!(e.playhead_step().units(), 0);
    press_transport(&mut e, k(true, true));
    assert!(!e.playing());
}

#[test]
fn project_files_end_in_json() {
    assert!(!needs_json(Some("json")));
    assert!(needs_json(Some("txt")));
    assert!(needs_json(Some("JSON")));
    assert!(needs_json(None));
}
