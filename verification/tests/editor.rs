use simple_pianoroll::clips::{clip_number, same_pattern};
use simple_pianoroll::edits::{set_clip_len, Keys, Shortcut};
use simple_pianoroll::grid::{Steps, UNITS_PER_STEP};
use simple_pianoroll::level::DEFAULT_VELOCITY;
use simple_pianoroll::pattern::Pattern;
use simple_pianoroll::pianoroll::{EditorState, Rgb, Scheme};

const U: u128 = UNITS_PER_STEP as u128;

fn st(units: u128) -> Steps {
    Steps::from_units(units)
}

fn song() -> Pattern {
    let mut p = Pattern::empty(16);
    p.add_note(0, st(0), st(2 * U), 10);
    p.add_note(4, st(4 * U), st(2 * U), 20);
    p.add_note(7, st(8 * U), st(2 * U), 30);
    p
}

fn starts(p: &Pattern) -> Vec<u64> {
    p.notes.iter().map(|n| n.start_step.whole).collect()
}

fn pitches(p: &Pattern) -> Vec<i32> {
    p.notes.iter().map(|n| n.pitch_index).collect()
}

fn select(e: &mut EditorState, ids: &[u64]) {
    e.selection.clear();
    for id in ids {
        e.selection.insert(*id);
    }
}

fn selected(e: &EditorState) -> Vec<u64> {
    let mut v: Vec<u64> = e.selection.iter().cloned().collect();
    v.sort();
    v
}

#[test]
fn a_new_editor() {
    let e = EditorState::default();
    assert!(e.selection.is_empty());
    assert_eq!(e.last_note_len, st(4 * U));
    assert_eq!(e.snap, st(U));
    assert_eq!(e.scheme, Scheme::ByPitchClass);
    assert_eq!(e.names, "C C# D D# E F F# G G# A A# B");
    let p = song();
    let s = EditorState::start(&p);
    assert_eq!(s.clips.len(), 1);
    assert_eq!(s.clip_names, vec!["Clip 0"]);
    assert_eq!(s.history.len(), 1);
    assert_eq!(s.history_pos, 0);
}

#[test]
fn undo_and_redo_walk_the_points() {
    let mut p = song();
    let mut e = EditorState::start(&p);
    e.begin_edit(&p);
    p.add_note(1, st(0), st(U), 1);
    e.undo(&mut p);
    assert_eq!(p.notes.len(), 3);
    assert!(e.selection.is_empty());
    e.undo(&mut p);
    assert_eq!(p.notes.len(), 3);
    e.redo(&mut p);
    assert_eq!(e.history_pos, 1);
    e.begin_edit(&p);
    p.set_len(4);
    e.begin_edit(&p);
    assert_eq!(e.history.len(), 4);
    e.undo(&mut p);
    e.undo(&mut p);
    e.begin_edit(&p);
    assert_eq!(e.history.len(), 3);
    e.redo(&mut p);
    assert_eq!(e.history_pos, 2);
}

#[test]
fn only_a_hundred_points_are_kept() {
    let mut p = Pattern::empty(1);
    let mut e = EditorState::default();
    for i in 0..150 {
        p.set_len(i + 1);
        e.begin_edit(&p);
    }
    assert_eq!(e.history.len(), 100);
    assert_eq!(e.history_pos, 99);
    assert_eq!(e.history[0].total_steps, 51);
    for _ in 0..200 {
        e.undo(&mut p);
    }
    assert_eq!(p.total_steps, 51);
    for _ in 0..200 {
        e.redo(&mut p);
    }
    assert_eq!(p.total_steps, 150);
}

#[test]
fn pasting_goes_to_the_playhead_and_selects_the_copies() {
    let mut p = song();
    let mut e = EditorState::start(&p);
    e.paste_at_playhead(&mut p, st(3 * U));
    assert_eq!(p.notes.len(), 3);
    select(&mut e, &[1, 2]);
    e.copy_selected(&p);
    assert_eq!(e.clipboard.len(), 2);
    e.paste_at_playhead(&mut p, st(6 * U));
    assert_eq!(starts(&p), vec![0, 4, 8, 6, 10]);
    assert_eq!(pitches(&p)[3..], [4, 7]);
    assert_eq!(p.notes[4].velocity, 30);
    assert_eq!(selected(&e), vec![3, 4]);
    // past the end everything lands on the last step
    e.paste_at_playhead(&mut p, st(100 * U));
    assert_eq!(starts(&p)[5..], [15, 15]);
    e.undo(&mut p);
    assert_eq!(p.notes.len(), 5);
    e.undo(&mut p);
    assert_eq!(p.notes.len(), 3);
}

#[test]
fn duplicates_follow_their_originals() {
    let mut p = song();
    let mut e = EditorState::start(&p);
    e.duplicate_selected(&mut p);
    assert_eq!(p.notes.len(), 3);
    select(&mut e, &[0, 2]);
    e.duplicate_selected(&mut p);
    assert_eq!(starts(&p), vec![0, 4, 8, 2, 10]);
    assert_eq!(selected(&e), vec![3, 4]);
}

#[test]
fn deleting_and_cutting() {
    let mut p = song();
    let mut e = EditorState::start(&p);
    e.delete_selected(&mut p);
    assert_eq!(p.notes.len(), 3);
    assert_eq!(e.history.len(), 1);
    select(&mut e, &[1]);
    e.delete_selected(&mut p);
    assert_eq!(pitches(&p), vec![0, 7]);
    assert!(e.selection.is_empty());
    e.select_all(&p);
    assert_eq!(selected(&e), vec![0, 2]);
    e.cut_selected(&mut p);
    assert!(p.notes.is_empty());
    assert_eq!(e.clipboard.len(), 2);
}

#[test]
fn edits_of_the_selection() {
    let mut p = song();
    let mut e = EditorState::start(&p);
    assert_eq!(e.shown_velocity(&p), DEFAULT_VELOCITY);
    assert_eq!(e.shown_label(&p), "");
    select(&mut e, &[1, 2]);
    assert_eq!(e.shown_velocity(&p), 20);
    e.set_selected_velocity(&mut p, 99);
    assert_eq!(e.last_velocity, 99);
    let v: Vec<i32> = p.notes.iter().map(|n| n.velocity).collect();
    assert_eq!(v, vec![10, 99, 99]);
    e.set_selected_label(&mut p, &"x".to_string());
    assert_eq!(e.shown_label(&p), "x");
    assert_eq!(p.notes[0].label, "");
    e.clear_selected_labels(&mut p);
    assert_eq!(p.notes[1].label, "");
    e.transpose(&mut p, 12, 12);
    assert_eq!(pitches(&p), vec![0, 16, 19]);
    e.transpose(&mut p, 100, 12);
    assert_eq!(pitches(&p), vec![0, 84, 84]);
    e.transpose(&mut p, -1000, 12);
    assert_eq!(pitches(&p), vec![0, -24, -24]);
    e.selection.clear();
    let points = e.history.len();
    e.transpose(&mut p, 1, 12);
    assert_eq!(e.history.len(), points);
}

#[test]
fn edits_of_the_pattern() {
    let mut p = song();
    let mut e = EditorState::start(&p);
    select(&mut e, &[1]);
    e.set_beats_per_bar(&mut p, 0);
    assert_eq!(p.beats_per_bar, 1);
    e.set_beats_per_bar(&mut p, 7);
    assert_eq!(p.beats_per_bar, 7);
    let points = e.history.len();
    e.set_beat_unit(&mut p, 4);
    assert_eq!(e.history.len(), points);
    e.set_beat_unit(&mut p, 8);
    assert_eq!(p.beat_unit, 8);
    assert_eq!(e.history.len(), points + 1);
    set_clip_len(&mut p, -5);
    assert_eq!(p.total_steps, 1);
    e.clear(&mut p);
    assert!(p.notes.is_empty());
    assert!(e.selection.is_empty());
    assert_eq!(p.beat_unit, 8);
    e.load_demo(&mut p);
    assert!(same_pattern(&p, &Pattern::demo()));
}

#[test]
fn colors_fit_the_tuning() {
    let mut e = EditorState::default();
    let red = Rgb { red: 255, green: 0, blue: 0 };
    e.custom_colors.push(red);
    e.fit_colors(3);
    let gray = Rgb { red: 140, green: 140, blue: 140 };
    assert_eq!(e.custom_colors, vec![red, gray, gray]);
    e.fit_colors(31);
    assert_eq!(e.custom_colors.len(), 24);
    e.fit_colors(1);
    assert_eq!(e.custom_colors, vec![red]);
}

#[test]
fn clips_are_switched_added_and_deleted() {
    let mut p = song();
    let mut e = EditorState::start(&p);
    e.add_clip(&mut p);
    assert_eq!((p.notes.len(), p.total_steps), (0, 16));
    assert_eq!(e.clip_names, vec!["Clip 0", "Clip 1"]);
    assert_eq!(e.active_clip, 1);
    p.add_note(5, st(0), st(U), 1);
    select(&mut e, &[0]);
    e.switch_clip(&mut p, 0);
    assert_eq!(p.notes.len(), 3);
    assert!(e.selection.is_empty());
    assert_eq!(e.clips[1].notes.len(), 1);
    e.rename_clip("intro".to_string());
    assert_eq!(e.clip_name(0), "intro");
    assert_eq!(e.clip_name(9), "Clip 9");
    e.switch_clip(&mut p, 1);
    assert_eq!(p.notes.len(), 1);
    e.delete_clip(&mut p);
    assert_eq!(e.clips.len(), 1);
    assert_eq!(e.active_clip, 0);
    assert_eq!(p.notes.len(), 3);
    assert_eq!(e.clip_names, vec!["intro"]);
    e.delete_clip(&mut p);
    assert_eq!(e.clips.len(), 1);
    assert_eq!(clip_number(12), "Clip 12");
}

#[test]
fn patterns_are_compared_in_every_field() {
    let p = song();
    assert!(same_pattern(&p, &p.clone()));
    let mut q = p.clone();
    q.notes[2].label = "x".to_string();
    assert!(!same_pattern(&p, &q));
    let mut r = p.clone();
    r.beat_unit = 8;
    assert!(!same_pattern(&p, &r));
    let mut s = p.clone();
    s.notes.pop();
    assert!(!same_pattern(&p, &s));
}

fn keys() -> Keys {
    Keys {
        typing: false,
        copy: false,
        cut: false,
        paste: false,
        delete: false,
        command: false,
        shift: false,
        a: false,
        d: false,
        z: false,
        y: false,
        s: false,
        up: false,
        down: false,
    }
}

#[test]
fn shortcuts_by_priority() {
    assert_eq!(keys().shortcut(), Shortcut::Nothing);
    let all = Keys { copy: true, cut: true, paste: true, delete: true, ..keys() };
    assert_eq!(all.shortcut(), Shortcut::Copy);
    assert_eq!(Keys { typing: true, ..all }.shortcut(), Shortcut::Nothing);
    assert_eq!(Keys { cut: true, paste: true, ..keys() }.shortcut(), Shortcut::Cut);
    assert_eq!(Keys { paste: true, delete: true, ..keys() }.shortcut(), Shortcut::Paste);
    assert_eq!(Keys { delete: true, ..keys() }.shortcut(), Shortcut::Delete);
    assert_eq!(Keys { a: true, ..keys() }.shortcut(), Shortcut::Nothing);
    let cmd = Keys { command: true, ..keys() };
    assert_eq!(Keys { a: true, d: true, ..cmd }.shortcut(), Shortcut::SelectAll);
    assert_eq!(Keys { d: true, z: true, ..cmd }.shortcut(), Shortcut::Duplicate);
    assert_eq!(Keys { z: true, y: true, ..cmd }.shortcut(), Shortcut::Undo);
    assert_eq!(Keys { z: true, shift: true, ..cmd }.shortcut(), Shortcut::Redo);
    assert_eq!(Keys { y: true, s: true, ..cmd }.shortcut(), Shortcut::Redo);
    assert_eq!(Keys { s: true, up: true, ..cmd }.shortcut(), Shortcut::Save);
    assert_eq!(Keys { up: true, shift: true, ..cmd }.shortcut(), Shortcut::OctaveUp);
    assert_eq!(Keys { down: true, ..cmd }.shortcut(), Shortcut::OctaveDown);
    assert_eq!(Keys { shift: true, up: true, ..keys() }.shortcut(), Shortcut::StepUp);
    assert_eq!(Keys { shift: true, down: true, ..keys() }.shortcut(), Shortcut::StepDown);
}

#[test]
fn shortcuts_are_carried_out() {
    let mut p = song();
    let mut e = EditorState::start(&p);
    e.apply_shortcut(&mut p, Shortcut::SelectAll, 12, st(0));
    assert_eq!(selected(&e), vec![0, 1, 2]);
    e.apply_shortcut(&mut p, Shortcut::Copy, 12, st(0));
    e.apply_shortcut(&mut p, Shortcut::OctaveUp, 12, st(0));
    assert_eq!(pitches(&p), vec![12, 16, 19]);
    e.apply_shortcut(&mut p, Shortcut::StepDown, 12, st(0));
    assert_eq!(pitches(&p), vec![11, 15, 18]);
    e.apply_shortcut(&mut p, Shortcut::Paste, 12, st(2 * U));
    assert_eq!(starts(&p)[3..], [2, 6, 10]);
    assert_eq!(pitches(&p)[3..], [0, 4, 7]);
    e.apply_shortcut(&mut p, Shortcut::Delete, 12, st(0));
    assert_eq!(p.notes.len(), 3);
    e.apply_shortcut(&mut p, Shortcut::Undo, 12, st(0));
    assert_eq!(p.notes.len(), 6);
    e.apply_shortcut(&mut p, Shortcut::Save, 12, st(0));
    e.apply_shortcut(&mut p, Shortcut::Redo, 12, st(0));
    assert_eq!(p.notes.len(), 3);
}

#[test]
fn identities_stay_unique_and_the_selection_valid() {
    let mut p = song();
    let mut e = EditorState::start(&p);
    let valid = |e: &EditorState, p: &Pattern| {
        let mut ids: Vec<u64> = p.notes.iter().map(|n| n.id).collect();
        ids.sort();
        ids.dedup();
        ids.len() == p.notes.len()
            && ids.iter().all(|id| *id < p.next_id)
            && e.selection.iter().all(|id| ids.contains(id))
    };
    let steps = [
        Shortcut::SelectAll,
        Shortcut::Copy,
        Shortcut::Duplicate,
        Shortcut::Paste,
        Shortcut::StepUp,
        Shortcut::Cut,
        Shortcut::Undo,
        Shortcut::Paste,
        Shortcut::Redo,
        Shortcut::SelectAll,
        Shortcut::Delete,
        Shortcut::Undo,
    ];
    for s in steps {
        e.apply_shortcut(&mut p, s, 12, st(3 * U));
        assert!(valid(&e, &p));
    }
    e.grid_clicked(&mut p, 0, 0, true);
    e.erase_under(&mut p, true, Some(0));
    assert!(valid(&e, &p));
}

#[test]
fn undo_returns_to_the_recorded_point() {
    // a fresh editor with one recorded edit
    let mut p = song();
    let mut e = EditorState::default();
    e.begin_edit(&p);
    e.selection.insert(1);
    p.add_note(1, st(0), st(U), 1);
    e.undo(&mut p);
    assert_eq!(p.notes.len(), 3);
    assert!(e.selection.is_empty());
    e.redo(&mut p);
    assert_eq!(p.notes.len(), 4);
    // there is nothing older, and nothing newer
    e.redo(&mut p);
    assert_eq!(p.notes.len(), 4);
}

#[test]
fn edits_are_taken_back_one_by_one() {
    let mut p = song();
    let mut e = EditorState::start(&p);
    for len in [12, 8, 4] {
        e.begin_edit(&p);
        set_clip_len(&mut p, len);
    }
    let mut seen = Vec::new();
    for _ in 0..3 {
        e.undo(&mut p);
        seen.push(p.total_steps);
    }
    assert_eq!(seen, vec![8, 12, 16]);
    seen.clear();
    for _ in 0..4 {
        e.redo(&mut p);
        seen.push(p.total_steps);
    }
    assert_eq!(seen, vec![12, 8, 4, 4]);
    // an edit after undo forgets what could be redone
    e.undo(&mut p);
    e.begin_edit(&p);
    set_clip_len(&mut p, 2);
    e.redo(&mut p);
    assert_eq!(p.total_steps, 2);
    e.undo(&mut p);
    assert_eq!(p.total_steps, 8);
}

#[test]
fn undo_keeps_the_newest_state_at_the_limit() {
    let mut p = Pattern::empty(1);
    let mut e = EditorState::default();
    for i in 0..100 {
        e.begin_edit(&p);
        p.set_len(i + 2);
    }
    assert_eq!(e.history.len(), 100);
    e.undo(&mut p);
    assert_eq!(p.total_steps, 100);
    assert_eq!(e.history.len(), 100);
    assert_eq!(e.history[0].total_steps, 2);
    e.redo(&mut p);
    assert_eq!(p.total_steps, 101);
}
