use simple_pianoroll::gesture::{grabbed_edge, pitch_clamp, seek_target};
use simple_pianoroll::grid::{Steps, UNITS_PER_STEP};
use simple_pianoroll::level::DEFAULT_VELOCITY;
use simple_pianoroll::pattern::Pattern;
use simple_pianoroll::pianoroll::{Drag, Edge, EditorState, Point};

const U: u128 = UNITS_PER_STEP as u128;

fn st(units: u128) -> Steps {
    Steps::from_units(units)
}

const AT: Point = Point { x: 3, y: 4 };

fn song() -> Pattern {
    let mut p = Pattern::empty(16);
    p.add_note(0, st(0), st(2 * U), 10);
    p.add_note(4, st(4 * U), st(2 * U), 20);
    p.add_note(7, st(8 * U), st(2 * U), 30);
    p
}

fn note(p: &Pattern, i: usize) -> (i32, u64, u64) {
    (p.notes[i].pitch_index, p.notes[i].start_step.whole, p.notes[i].length_steps.whole)
}

fn selected(e: &EditorState) -> Vec<u64> {
    let mut v: Vec<u64> = e.selection.iter().cloned().collect();
    v.sort();
    v
}

#[test]
fn an_erase_stroke_is_one_edit() {
    let mut p = song();
    let mut e = EditorState::start(&p);
    e.selection.insert(1);
    e.selection.insert(2);
    e.erase_under(&mut p, true, None);
    assert_eq!(e.history.len(), 1);
    e.erase_under(&mut p, true, Some(1));
    e.erase_under(&mut p, true, Some(0));
    assert_eq!(p.notes.len(), 1);
    assert_eq!(e.history.len(), 2);
    assert_eq!(selected(&e), vec![2]);
    e.erase_under(&mut p, false, Some(0));
    assert_eq!(p.notes.len(), 1);
    e.erase_under(&mut p, true, Some(0));
    assert_eq!(e.history.len(), 3);
    assert!(p.notes.is_empty());
}

#[test]
fn seeking_stays_in_the_clip() {
    assert_eq!(seek_target(-3, 16), st(0));
    assert_eq!(seek_target(5, 16), st(5 * U));
    assert_eq!(seek_target(99, 16), st(15 * U));
    assert_eq!(seek_target(5, 0), st(0));
}

#[test]
fn edges() {
    assert_eq!(grabbed_edge(true, true), Some(Edge::Left));
    assert_eq!(grabbed_edge(false, true), Some(Edge::Right));
    assert_eq!(grabbed_edge(false, false), None);
    assert_eq!(pitch_clamp(200, 12), 84);
    assert_eq!(pitch_clamp(-200, 12), -24);
    assert_eq!(pitch_clamp(5, 12), 5);
}

#[test]
fn shift_drag_draws_a_note() {
    let mut p = song();
    let mut e = EditorState::start(&p);
    e.snap = st(2 * U);
    e.grid_drag_started(&p, 100, 5, AT, true, true, 12);
    assert_eq!(e.history.len(), 2);
    e.grid_dragged(2, AT);
    e.grid_dragged(9, AT);
    assert_eq!(e.grid_drag_stopped(&mut p, &vec![]), Some(84));
    // from the snapped left-most place to the end of the step under the pointer
    assert_eq!(note(&p, 3), (84, 2, 9));
    assert_eq!(p.notes[3].velocity, DEFAULT_VELOCITY);
    assert_eq!(selected(&e), vec![3]);
    assert_eq!(e.last_note_len, st(9 * U));
    assert!(e.drag.is_none());
}

#[test]
fn ctrl_drag_toggles_the_selection() {
    let mut p = song();
    let mut e = EditorState::start(&p);
    e.selection.insert(0);
    e.grid_drag_started(&p, 0, 0, AT, false, true, 12);
    e.grid_dragged(9, Point { x: 7, y: 8 });
    assert!(matches!(
        e.drag,
        Some(Drag::Marquee { start: Point { x: 3, y: 4 }, cur: Point { x: 7, y: 8 } })
    ));
    assert_eq!(e.grid_drag_stopped(&mut p, &vec![0, 2]), None);
    assert_eq!(selected(&e), vec![2]);
    assert_eq!(e.history.len(), 1);
    e.grid_drag_started(&p, 0, 0, AT, false, false, 12);
    assert!(e.drag.is_none());
}

#[test]
fn a_click_adds_a_note() {
    let mut p = song();
    let mut e = EditorState::start(&p);
    assert_eq!(e.grid_clicked(&mut p, 3, 7, false), Some(3));
    // one beat long until another length was used
    assert_eq!(note(&p, 3), (3, 7, 4));
    assert_eq!(selected(&e), vec![3]);
    e.last_note_len = st(99 * U);
    e.grid_clicked(&mut p, 200, -4, true);
    assert_eq!(note(&p, 4), (200, 0, 16));
    assert_eq!(selected(&e), vec![3, 4]);
    e.last_note_len = st(0);
    e.grid_clicked(&mut p, 1, 1, false);
    assert_eq!(note(&p, 5), (1, 1, 1));
}

#[test]
fn clicking_notes_selects_them() {
    let mut p = song();
    let mut e = EditorState::start(&p);
    assert_eq!(e.note_clicked(&mut p, 1, false), None);
    assert_eq!(selected(&e), vec![1]);
    assert_eq!(e.last_note_len, st(2 * U));
    e.note_clicked(&mut p, 2, true);
    assert_eq!(selected(&e), vec![1, 2]);
    e.note_clicked(&mut p, 77, false);
    assert_eq!(selected(&e), vec![1, 2]);
    // shift on a selected note duplicates the whole selection in place
    assert_eq!(e.note_clicked(&mut p, 1, true), Some(7));
    assert_eq!(p.notes.len(), 5);
    assert_eq!(note(&p, 3), (4, 4, 2));
    assert_eq!(note(&p, 4), (7, 8, 2));
    assert_eq!(selected(&e), vec![3, 4]);
    e.note_clicked(&mut p, 0, false);
    assert_eq!(selected(&e), vec![0]);
}

#[test]
fn dragging_moves_the_group_from_where_it_started() {
    let mut p = song();
    let mut e = EditorState::start(&p);
    e.selection.insert(0);
    e.note_drag_started(&p, 1, None, true);
    assert_eq!(selected(&e), vec![0, 1]);
    assert_eq!(e.note_dragged(&mut p, 2, 3, 12), Some(6));
    assert_eq!(note(&p, 0), (2, 3, 2));
    assert_eq!(note(&p, 1), (6, 7, 2));
    assert_eq!(note(&p, 2), (7, 8, 2));
    // the same pitch is previewed once
    assert_eq!(e.note_dragged(&mut p, 2, 5, 12), None);
    assert_eq!(note(&p, 0), (2, 5, 2));
    assert_eq!(e.note_dragged(&mut p, -100, 100, 12), Some(-24));
    assert_eq!(note(&p, 0), (-24, 15, 2));
    assert_eq!(e.note_dragged(&mut p, 0, -100, 12), Some(4));
    assert_eq!(note(&p, 0), (0, 0, 2));
    assert_eq!(e.note_dragged(&mut p, 0, 0, 12), None);
    assert_eq!(note(&p, 0), (0, 0, 2));
    assert_eq!(note(&p, 1), (4, 4, 2));
    e.note_drag_stopped();
    assert!(e.drag.is_none());
    assert_eq!(e.note_dragged(&mut p, 5, 5, 12), None);
    assert_eq!(note(&p, 0), (0, 0, 2));
}

#[test]
fn dragging_an_unselected_note_takes_it_alone() {
    let mut p = song();
    let mut e = EditorState::start(&p);
    e.selection.insert(0);
    e.note_drag_started(&p, 1, None, false);
    assert_eq!(selected(&e), vec![1]);
    e.snap = st(4 * U);
    e.note_dragged(&mut p, 0, 3, 12);
    assert_eq!(note(&p, 0), (0, 0, 2));
    assert_eq!(note(&p, 1), (4, 8, 2));
}

#[test]
fn dragging_an_edge_resizes() {
    let mut p = song();
    let mut e = EditorState::start(&p);
    e.note_drag_started(&p, 1, Some(Edge::Right), false);
    assert_eq!(e.note_dragged(&mut p, 9, 3, 12), None);
    assert_eq!(note(&p, 1), (4, 4, 5));
    assert_eq!(e.last_note_len, st(5 * U));
    e.note_dragged(&mut p, 0, 100, 12);
    assert_eq!(note(&p, 1), (4, 4, 12));
    e.note_dragged(&mut p, 0, -100, 12);
    assert_eq!(note(&p, 1), (4, 4, 1));
    e.note_drag_stopped();
    e.note_drag_started(&p, 2, Some(Edge::Left), false);
    e.note_dragged(&mut p, 0, -3, 12);
    assert_eq!(note(&p, 2), (7, 5, 5));
    e.note_dragged(&mut p, 0, 100, 12);
    assert_eq!(note(&p, 2), (7, 9, 1));
    e.note_dragged(&mut p, 0, -100, 12);
    assert_eq!(note(&p, 2), (7, 0, 10));
}
