//! What holds of gestures with the pointer: dragging, resizing, drawing, clicking
//! and erasing notes.
use vstd::prelude::*;

#[allow(unused_imports)]
use crate::display::{snapped, snapping_is_to_the_nearest};
#[allow(unused_imports)]
use crate::editing::{common_len, last_of, lemma_moved_at, lemma_resized_at};
#[allow(unused_imports)]
use crate::edits::leads;
#[allow(unused_imports)]
use crate::gesture::{
    clip_units, erased, extents_of, ids_of, moved_group, note_with_id, places_of, resized_group,
    seek_position, snapped_start, toggled, Shift,
};
#[allow(unused_imports)]
use crate::grid::{max_units, UNITS_PER_STEP};
#[allow(unused_imports)]
use crate::pattern::{ids_unique, lemma_first_with_id_found, NoteView, PatternView};
#[allow(unused_imports)]
use crate::pianoroll::{plus_copies, same_starts, selected_of, DragView, Edge, EditorView, Point};

verus! {

// ---------------------------------------------------------------------------
// Groups
// ---------------------------------------------------------------------------

/// Resizing a group changes starts and lengths only: every note stays in its
/// place in the list, with its pitch, velocity, label and identity.
pub proof fn resizing_keeps_what_notes_sound_like(
    notes: Seq<NoteView>,
    ids: Seq<u64>,
    orig: Seq<(nat, nat)>,
    edge: Edge,
    by: int,
    total: int,
)
    ensures
        ({
            let r = resized_group(notes, ids, orig, edge, by, total);
            &&& r.len() == notes.len()
            &&& forall|i: int|
                0 <= i < notes.len() ==> {
                    &&& (#[trigger] r[i]).pitch_index == notes[i].pitch_index
                    &&& r[i].velocity == notes[i].velocity
                    &&& r[i].label == notes[i].label
                    &&& r[i].id == notes[i].id
                    &&& edge == Edge::Right ==> r[i].start_step == notes[i].start_step
                }
        }),
    decreases ids.len(),
{
    if ids.len() > 0 && orig.len() > 0 {
        resizing_keeps_what_notes_sound_like(notes, ids.drop_last(), orig, edge, by, total);
        let rest = resized_group(notes, ids.drop_last(), orig, edge, by, total);
        lemma_first_with_id_found(rest, ids[ids.len() - 1]);
    }
}

/// Moving a group changes pitches and starts only: every note stays in its place
/// in the list, with its length, velocity, label and identity.
pub proof fn moving_keeps_how_notes_are_played(
    notes: Seq<NoteView>,
    ids: Seq<u64>,
    orig: Seq<(i32, nat)>,
    by: Shift,
    spo: int,
    total_steps: usize,
)
    ensures
        ({
            let r = moved_group(notes, ids, orig, by, spo, total_steps);
            &&& r.len() == notes.len()
            &&& forall|i: int|
                0 <= i < notes.len() ==> {
                    &&& (#[trigger] r[i]).length_steps == notes[i].length_steps
                    &&& r[i].velocity == notes[i].velocity
                    &&& r[i].label == notes[i].label
                    &&& r[i].id == notes[i].id
                }
        }),
    decreases ids.len(),
{
    if ids.len() > 0 && orig.len() > 0 {
        moving_keeps_how_notes_are_played(notes, ids.drop_last(), orig, by, spo, total_steps);
        let rest = moved_group(notes, ids.drop_last(), orig, by, spo, total_steps);
        lemma_first_with_id_found(rest, ids[ids.len() - 1]);
    }
}

// ---------------------------------------------------------------------------
// Dragging notes
// ---------------------------------------------------------------------------

/// A note is dragged along with note `id`: it is that note, or it is selected and
/// the selection is kept, which it is where it holds note `id` or shift is held.
pub open spec fn is_dragged(selection: Set<u64>, id: u64, shift: bool, x: u64) -> bool {
    x == id || (selection.contains(x) && (selection.contains(id) || shift))
}

/// A drag of notes goes by the nearest whole number of snaps, a half rounded away
/// from zero; without a snap it goes as far as the pointer.
pub open spec fn is_snapped(to: int, from: int, snap: nat) -> bool {
    &&& snap == 0 ==> to == from
    &&& snap > 0 ==> {
        &&& to % (snap as int) == 0
        &&& 2 * (to - from) <= snap
        &&& 2 * (from - to) <= snap
        &&& from > 0 ==> 2 * (from - to) < snap
        &&& from < 0 ==> 2 * (to - from) < snap
    }
}

proof fn lemma_snapped(v: int, snap: nat)
    ensures
        is_snapped(snapped(v, snap as int), v, snap),
{
    if snap > 0 {
        let s = snap as int;
        snapping_is_to_the_nearest(v, s);
        let a = if v < 0 {
            -v
        } else {
            v
        };
        let q = (2 * a + s) / (2 * s);
        assert(2 * (q * s) <= 2 * a + s && 2 * a < 2 * (q * s) + s) by (nonlinear_arith)
            requires
                q == (2 * a + s) / (2 * s),
                s > 0,
        ;
    }
}

/// A drag of notes goes by whole snaps.
pub proof fn drags_go_by_whole_snaps(e: EditorView, d_step: i32)
    ensures
        is_snapped(e.drag_units(d_step), d_step * UNITS_PER_STEP, e.snap),
{
    lemma_snapped(d_step * UNITS_PER_STEP, e.snap);
}

/// Starting a drag records an undo point, drops what could be redone, selects the
/// notes that are dragged along and changes nothing else but the gesture.
pub proof fn a_drag_starts_with_an_undo_point(
    e: EditorView,
    p: PatternView,
    id: u64,
    edge: Option<Edge>,
    shift: bool,
)
    requires
        e.wf(),
    ensures
        ({
            let s = e.note_drag_started(p, id, edge, shift);
            &&& s == (EditorView {
                drag: s.drag,
                selection: s.selection,
                history: s.history,
                history_pos: s.history_pos,
                ..e
            })
            &&& s.history.last() == p
            &&& s.history_pos + 1 == s.history.len()
            &&& forall|x: u64| #[trigger]
                s.selection.contains(x) <==> is_dragged(e.selection, id, shift, x)
        }),
{
}

/// A drag remembers the note it grabbed: a move its pitch, which counts as heard, a
/// resize its edge.
pub proof fn a_drag_remembers_the_grabbed_note(
    e: EditorView,
    p: PatternView,
    h: int,
    edge: Edge,
    shift: bool,
)
    requires
        ids_unique(p),
        0 <= h < p.notes.len(),
    ensures
        ({
            let n = p.notes[h];
            let m = e.note_drag_started(p, n.id, None, shift);
            let r = e.note_drag_started(p, n.id, Some(edge), shift);
            &&& m.drag matches Some(DragView::NoteMove { hit_id, last_pitch, .. }) && hit_id == n.id
                && last_pitch == Some(n.pitch_index)
            &&& r.drag matches Some(DragView::NoteResize { hit_id, edge: grabbed, .. }) && hit_id
                == n.id && grabbed == edge
        }),
{
    lemma_leads(p, h);
}

proof fn lemma_selected(notes: Seq<NoteView>, selection: Set<u64>)
    ensures
        ({
            let s = selected_of(notes, selection);
            &&& s.len() <= notes.len()
            &&& forall|k: int|
                0 <= k < s.len() ==> selection.contains((#[trigger] s[k]).id) && notes.contains(
                    s[k],
                )
            &&& forall|i: int|
                0 <= i < notes.len() && selection.contains((#[trigger] notes[i]).id)
                    ==> s.contains(notes[i])
        }),
    decreases notes.len(),
{
    reveal(Seq::filter);
    let s = selected_of(notes, selection);
    if notes.len() > 0 {
        let rest = notes.drop_last();
        lemma_selected(rest, selection);
        let t = selected_of(rest, selection);
        assert forall|k: int| 0 <= k < s.len() implies selection.contains((#[trigger] s[k]).id)
            && notes.contains(s[k]) by {
            if k < t.len() {
                assert(s[k] == t[k]);
                let j = choose|j: int| 0 <= j < rest.len() && rest[j] == t[k];
                assert(notes[j] == s[k]);
            } else {
                assert(notes[notes.len() - 1] == s[k]);
            }
        }
        assert forall|i: int|
            0 <= i < notes.len() && selection.contains((#[trigger] notes[i]).id) implies s.contains(
            notes[i],
        ) by {
            if i < rest.len() {
                assert(rest[i] == notes[i]);
                let k = choose|k: int| 0 <= k < t.len() && t[k] == notes[i];
                assert(s[k] == t[k]);
            } else {
                assert(s[s.len() - 1] == notes[i]);
            }
        }
    }
}

proof fn lemma_last_of(ids: Seq<u64>, m: int, id: u64)
    requires
        0 <= m <= ids.len(),
    ensures
        ({
            let k = last_of(ids, m, id);
            &&& -1 <= k < m || (m == 0 && k == -1)
            &&& k >= 0 ==> ids[k] == id
            &&& forall|j: int| k < j < m ==> #[trigger] ids[j] != id
        }),
    decreases m,
{
    if m > 0 && ids[m - 1] != id {
        lemma_last_of(ids, m - 1, id);
    }
}

proof fn lemma_leads(p: PatternView, i: int)
    requires
        ids_unique(p),
        0 <= i < p.notes.len(),
    ensures
        leads(p.notes, i),
        note_with_id(p.notes, p.notes[i].id) == Some(p.notes[i]),
{
    lemma_first_with_id_found(p.notes, p.notes[i].id);
}

/// In a group of the selected notes, note `i` of the pattern is found with what it
/// was when the drag started, if it is selected.
proof fn lemma_in_group(p: PatternView, selection: Set<u64>, i: int) -> (k: int)
    requires
        ids_unique(p),
        0 <= i < p.notes.len(),
    ensures
        ({
            let group = selected_of(p.notes, selection);
            let ids = ids_of(group);
            &&& k == last_of(ids, ids.len() as int, p.notes[i].id)
            &&& selection.contains(p.notes[i].id) <==> k >= 0
            &&& k >= 0 ==> k < group.len() && group[k] == p.notes[i]
        }),
{
    let group = selected_of(p.notes, selection);
    let ids = ids_of(group);
    let n = p.notes[i];
    let k = last_of(ids, ids.len() as int, n.id);
    lemma_selected(p.notes, selection);
    lemma_last_of(ids, ids.len() as int, n.id);
    if k >= 0 {
        assert(ids[k] == group[k].id);
        let j = choose|j: int| 0 <= j < p.notes.len() && p.notes[j] == group[k];
        assert(p.notes[j].id == n.id);
        assert(i == j);
    } else if selection.contains(n.id) {
        assert(group.contains(n));
        let j = choose|j: int| 0 <= j < group.len() && group[j] == n;
        assert(ids[j] == n.id);
    }
    k
}

/// `to` is `from + by`, moved into the range from `low` to `high`.
pub open spec fn is_held(to: int, from: int, by: int, low: int, high: int) -> bool {
    &&& low <= from + by <= high ==> to == from + by
    &&& from + by < low ==> to == low
    &&& from + by > high ==> to == high
}

/// Dragging a note moves all notes that are dragged along by the same number of
/// rows and the same snapped distance, each kept between two octaves below the
/// reference and seven above it, and between the start of the clip and its last
/// step. Nothing else about them changes, and nothing about other notes.
pub proof fn dragging_moves_the_group(
    e: EditorView,
    p: PatternView,
    id: u64,
    shift: bool,
    d_pitch: i32,
    d_step: i32,
    spo: i32,
    h: int,
    i: int,
)
    requires
        ids_unique(p),
        0 <= spo <= 0x1000_0000,
        0 <= h < p.notes.len(),
        p.notes[h].id == id,
        0 <= i < p.notes.len(),
        p.total_steps >= 1,
    ensures
        ({
            let s = e.note_drag_started(p, id, None, shift);
            let q = s.note_dragged_pattern(p, d_pitch, d_step, spo);
            let n = p.notes[i];
            let m = q.notes[i];
            &&& q == (PatternView { notes: q.notes, ..p })
            &&& q.notes.len() == p.notes.len()
            &&& !is_dragged(e.selection, id, shift, n.id) ==> m == n
            &&& is_dragged(e.selection, id, shift, n.id) ==> {
                &&& m == (NoteView { pitch_index: m.pitch_index, start_step: m.start_step, ..n })
                &&& is_held(m.pitch_index as int, n.pitch_index as int, d_pitch as int, -2 * spo, 7
                    * spo)
                &&& is_held(
                    m.start_step as int,
                    n.start_step as int,
                    s.drag_units(d_step),
                    0,
                    (p.total_steps - 1) * UNITS_PER_STEP,
                )
            }
        }),
{
    let s = e.note_drag_started(p, id, None, shift);
    let group = selected_of(p.notes, s.selection);
    lemma_leads(p, h);
    lemma_leads(p, i);
    let by = Shift { pitch: d_pitch as int, units: s.drag_units(d_step) };
    let k = lemma_in_group(p, s.selection, i);
    lemma_moved_at(
        p.notes,
        ids_of(group),
        places_of(group),
        by,
        spo as int,
        p.total_steps,
        i,
    );
    assert(common_len(ids_of(group).len() as int, places_of(group).len() as int) == group.len());
    assert((p.total_steps - 1) * UNITS_PER_STEP >= 0);
}

/// Dragging the right edge of a note lengthens or shortens all notes that are
/// dragged along by the same snapped distance. Each stays at least a step long,
/// and ends in the clip where it can. Nothing else about them changes, and nothing
/// about other notes.
pub proof fn dragging_the_right_edge_changes_lengths(
    e: EditorView,
    p: PatternView,
    id: u64,
    shift: bool,
    d_pitch: i32,
    d_step: i32,
    spo: i32,
    i: int,
)
    requires
        ids_unique(p),
        0 <= i < p.notes.len(),
        p.total_steps >= 1,
    ensures
        ({
            let s = e.note_drag_started(p, id, Some(Edge::Right), shift);
            let q = s.note_dragged_pattern(p, d_pitch, d_step, spo);
            let n = p.notes[i];
            let m = q.notes[i];
            let total = p.total_steps * UNITS_PER_STEP;
            let room = total - n.start_step;
            &&& q == (PatternView { notes: q.notes, ..p })
            &&& q.notes.len() == p.notes.len()
            &&& !is_dragged(e.selection, id, shift, n.id) ==> m == n
            &&& is_dragged(e.selection, id, shift, n.id) ==> {
                &&& m == (NoteView { length_steps: m.length_steps, ..n })
                &&& room >= UNITS_PER_STEP ==> is_held(
                    m.length_steps as int,
                    n.length_steps as int,
                    s.drag_units(d_step),
                    UNITS_PER_STEP as int,
                    room,
                )
                &&& room < UNITS_PER_STEP ==> m.length_steps == UNITS_PER_STEP
            }
        }),
{
    let s = e.note_drag_started(p, id, Some(Edge::Right), shift);
    let group = selected_of(p.notes, s.selection);
    lemma_leads(p, i);
    let k = lemma_in_group(p, s.selection, i);
    let by = s.drag_units(d_step);
    lemma_resized_at(
        p.notes,
        ids_of(group),
        extents_of(group),
        Edge::Right,
        by,
        p.total_steps,
        i,
    );
    assert(common_len(ids_of(group).len() as int, extents_of(group).len() as int) == group.len());
    assert(clip_units(p.total_steps) == p.total_steps * UNITS_PER_STEP);
    assert(p.total_steps * UNITS_PER_STEP <= max_units());
}

/// Dragging the left edge of a note moves the start of all notes that are dragged
/// along by the same snapped distance, and leaves their ends where they are. Each
/// stays at least a step long and starts in the clip. Nothing else about them
/// changes, and nothing about other notes.
pub proof fn dragging_the_left_edge_changes_starts(
    e: EditorView,
    p: PatternView,
    id: u64,
    shift: bool,
    d_pitch: i32,
    d_step: i32,
    spo: i32,
    i: int,
)
    requires
        ids_unique(p),
        0 <= i < p.notes.len(),
        p.total_steps >= 1,
        p.notes[i].length_steps >= UNITS_PER_STEP,
        p.notes[i].start_step + p.notes[i].length_steps <= max_units(),
    ensures
        ({
            let s = e.note_drag_started(p, id, Some(Edge::Left), shift);
            let q = s.note_dragged_pattern(p, d_pitch, d_step, spo);
            let n = p.notes[i];
            let m = q.notes[i];
            let total = p.total_steps * UNITS_PER_STEP;
            let end = n.start_step + n.length_steps;
            &&& q == (PatternView { notes: q.notes, ..p })
            &&& q.notes.len() == p.notes.len()
            &&& !is_dragged(e.selection, id, shift, n.id) ==> m == n
            &&& is_dragged(e.selection, id, shift, n.id) ==> {
                &&& m == (NoteView { start_step: m.start_step, length_steps: m.length_steps, ..n })
                &&& m.start_step + m.length_steps == end
                &&& is_held(
                    m.start_step as int,
                    n.start_step as int,
                    s.drag_units(d_step),
                    0,
                    (if end < total {
                        end as int
                    } else {
                        total
                    }) - UNITS_PER_STEP,
                )
            }
        }),
{
    let s = e.note_drag_started(p, id, Some(Edge::Left), shift);
    let group = selected_of(p.notes, s.selection);
    lemma_leads(p, i);
    let k = lemma_in_group(p, s.selection, i);
    let by = s.drag_units(d_step);
    lemma_resized_at(
        p.notes,
        ids_of(group),
        extents_of(group),
        Edge::Left,
        by,
        p.total_steps,
        i,
    );
    assert(common_len(ids_of(group).len() as int, extents_of(group).len() as int) == group.len());
    assert(clip_units(p.total_steps) == p.total_steps * UNITS_PER_STEP);
    assert(UNITS_PER_STEP <= p.total_steps * UNITS_PER_STEP <= max_units());
}

/// While notes are moved, the pitch of the note under the pointer is previewed
/// when, and only when, it is another one than was heard last. A resize previews
/// nothing; the length it gives that note becomes the length of new notes.
pub proof fn drags_preview_changed_pitches(
    e: EditorView,
    q: PatternView,
    hit: int,
    ids: Seq<u64>,
    places: Seq<(i32, nat)>,
    extents: Seq<(nat, nat)>,
    edge: Edge,
    last: Option<i32>,
)
    requires
        ids_unique(q),
        0 <= hit < q.notes.len(),
    ensures
        ({
            let n = q.notes[hit];
            let m = EditorView {
                drag: Some(
                    DragView::NoteMove { ids, orig: places, hit_id: n.id, last_pitch: last },
                ),
                ..e
            };
            let r = EditorView {
                drag: Some(DragView::NoteResize { ids, orig: extents, edge, hit_id: n.id }),
                ..e
            };
            &&& last == Some(n.pitch_index) ==> m.note_dragged_pitch(q) is None
            &&& last != Some(n.pitch_index) ==> m.note_dragged_pitch(q) == Some(n.pitch_index)
            &&& m.note_dragged(q) == (EditorView {
                drag: Some(
                    DragView::NoteMove {
                        ids,
                        orig: places,
                        hit_id: n.id,
                        last_pitch: Some(n.pitch_index),
                    },
                ),
                ..e
            })
            &&& r.note_dragged_pitch(q) is None
            &&& r.note_dragged(q) == (EditorView { last_note_len: n.length_steps, ..r })
            &&& m.note_drag_stopped() == (EditorView { drag: None, ..e })
            &&& r.note_drag_stopped() == (EditorView { drag: None, ..e })
        }),
{
    lemma_leads(q, hit);
}

// ---------------------------------------------------------------------------
// Clicks on notes
// ---------------------------------------------------------------------------

/// A click on a note selects it, and with shift adds it to the selection; its
/// length becomes the length of new notes, and the pattern stays.
pub proof fn a_click_selects_a_note(e: EditorView, p: PatternView, i: int, shift: bool)
    requires
        ids_unique(p),
        0 <= i < p.notes.len(),
        !shift || !e.selection.contains(p.notes[i].id),
    ensures
        ({
            let n = p.notes[i];
            let r = e.note_clicked(p, n.id, shift);
            &&& r == (EditorView { selection: r.selection, last_note_len: n.length_steps, ..e })
            &&& forall|x: u64| #[trigger]
                r.selection.contains(x) <==> x == n.id || (shift && e.selection.contains(x))
            &&& e.note_clicked_pattern(p, n.id, shift) == p
            &&& e.note_clicked_pitch(p, n.id, shift) is None
        }),
{
    lemma_leads(p, i);
}

/// A click with shift on a selected note records an undo point and puts a copy of
/// each selected note on it, under a new identity; the copies are selected in
/// their place.
pub proof fn a_shift_click_on_the_selection_doubles_it(e: EditorView, p: PatternView, i: int)
    requires
        e.wf(),
        ids_unique(p),
        0 <= i < p.notes.len(),
        e.selection.contains(p.notes[i].id),
        p.next_id + p.notes.len() <= u64::MAX,
    ensures
        ({
            let r = e.note_clicked(p, p.notes[i].id, true);
            let q = e.note_clicked_pattern(p, p.notes[i].id, true);
            let group = selected_of(p.notes, e.selection);
            &&& r == (EditorView {
                selection: r.selection,
                last_note_len: group.last().length_steps,
                history: r.history,
                history_pos: r.history_pos,
                ..e
            })
            &&& r.history.last() == p
            &&& r.history_pos + 1 == r.history.len()
            &&& forall|x: u64| #[trigger]
                r.selection.contains(x) <==> p.next_id <= x < p.next_id + group.len()
            &&& group.len() > 0
            &&& q == (PatternView {
                notes: q.notes,
                next_id: (p.next_id + group.len()) as u64,
                ..p
            })
            &&& q.notes.len() == p.notes.len() + group.len()
            &&& forall|k: int| 0 <= k < p.notes.len() ==> #[trigger] q.notes[k] == p.notes[k]
            &&& forall|k: int|
                0 <= k < group.len() && group[k].length_steps >= UNITS_PER_STEP
                    ==> #[trigger] q.notes[p.notes.len() + k] == (NoteView { id: (p.next_id + k) as u64, ..group[k] })
            &&& e.note_clicked_pitch(p, p.notes[i].id, true) == Some(group.last().pitch_index)
        }),
{
    lemma_leads(p, i);
    let group = selected_of(p.notes, e.selection);
    lemma_selected(p.notes, e.selection);
    assert(group.contains(p.notes[i]));
    lemma_copies_are(p, group, same_starts(group));
}

/// The copies of notes stand behind the notes of the pattern.
pub(crate) proof fn lemma_copies_are(p: PatternView, notes: Seq<NoteView>, starts: Seq<nat>)
    requires
        p.next_id + notes.len() <= u64::MAX,
        starts.len() == notes.len(),
    ensures
        ({
            let q = plus_copies(p, notes, starts);
            &&& q == (PatternView {
                notes: q.notes,
                next_id: (p.next_id + notes.len()) as u64,
                ..p
            })
            &&& q.notes.len() == p.notes.len() + notes.len()
            &&& forall|k: int| 0 <= k < p.notes.len() ==> #[trigger] q.notes[k] == p.notes[k]
            &&& forall|k: int|
                0 <= k < notes.len() ==> {
                    let c = #[trigger] q.notes[p.notes.len() + k];
                    &&& c == (NoteView {
                        id: (p.next_id + k) as u64,
                        start_step: starts[k],
                        length_steps: c.length_steps,
                        ..notes[k]
                    })
                    &&& notes[k].length_steps >= UNITS_PER_STEP ==> c.length_steps
                        == notes[k].length_steps
                    &&& notes[k].length_steps < UNITS_PER_STEP ==> c.length_steps
                        == UNITS_PER_STEP
                }
        }),
    decreases notes.len(),
{
    let q = plus_copies(p, notes, starts);
    if notes.len() > 0 {
        let rest = notes.drop_last();
        let s = starts.drop_last();
        lemma_copies_are(p, rest, s);
        lemma_copies_prefix(p, rest, starts, s);
        let t = plus_copies(p, rest, starts);
        assert forall|k: int| 0 <= k < notes.len() implies {
            let c = #[trigger] q.notes[p.notes.len() + k];
            &&& c == (NoteView {
                id: (p.next_id + k) as u64,
                start_step: starts[k],
                length_steps: c.length_steps,
                ..notes[k]
            })
            &&& notes[k].length_steps >= UNITS_PER_STEP ==> c.length_steps == notes[k].length_steps
            &&& notes[k].length_steps < UNITS_PER_STEP ==> c.length_steps == UNITS_PER_STEP
        } by {
            if k < rest.len() {
                assert(q.notes[p.notes.len() + k] == t.notes[p.notes.len() + k]);
                assert(rest[k] == notes[k]);
                assert(s[k] == starts[k]);
            }
        }
        assert forall|k: int| 0 <= k < p.notes.len() implies #[trigger] q.notes[k]
            == p.notes[k] by {
            assert(q.notes[k] == t.notes[k]);
        }
    }
}

proof fn lemma_copies_prefix(p: PatternView, notes: Seq<NoteView>, a: Seq<nat>, b: Seq<nat>)
    requires
        notes.len() <= a.len(),
        notes.len() <= b.len(),
        forall|k: int| 0 <= k < notes.len() ==> a[k] == b[k],
    ensures
        plus_copies(p, notes, a) == plus_copies(p, notes, b),
    decreases notes.len(),
{
    if notes.len() > 0 {
        lemma_copies_prefix(p, notes.drop_last(), a, b);
        assert(a[notes.len() - 1] == b[notes.len() - 1]);
    }
}

// ---------------------------------------------------------------------------
// The empty grid
// ---------------------------------------------------------------------------

/// `at` is the snapped position of a step, never before the start of the grid.
pub open spec fn is_snapped_start(at: nat, step: i32, snap: nat) -> bool {
    exists|to: int| #[trigger]
        is_snapped(to, step * UNITS_PER_STEP, snap) && is_held(at as int, to, 0, 0, max_units())
}

/// A step on the grid is snapped like a distance, and never before the start.
pub proof fn steps_snap_to_the_grid(step: i32, snap: nat)
    ensures
        is_snapped_start(snapped_start(step, snap), step, snap),
{
    let to = snapped(step * UNITS_PER_STEP, snap as int);
    lemma_snapped(step * UNITS_PER_STEP, snap);
    assert(is_snapped(to, step * UNITS_PER_STEP, snap));
}

/// The ruler seeks to the start of the step under the pointer, kept in the clip.
pub proof fn seeking_stays_in_the_clip(step: i32, total_steps: usize)
    requires
        total_steps >= 1,
    ensures
        is_held(
            seek_position(step, total_steps) as int,
            step * UNITS_PER_STEP,
            0,
            0,
            (total_steps - 1) * UNITS_PER_STEP,
        ),
{
    assert((total_steps - 1) * UNITS_PER_STEP >= 0);
}

/// Drawing with shift from step `from` to step `to` records an undo point and adds
/// one note, the only one selected then: on the row where the drag began, kept in
/// reach, from where it began to the end of the step where it ended. Drawn to the
/// left, it starts there and is a step long. It has the velocity of new notes, and
/// its length becomes theirs.
pub proof fn drawing_adds_a_note(
    e: EditorView,
    p: PatternView,
    pitch: i32,
    from: i32,
    to: i32,
    a: Point,
    b: Point,
    ctrl: bool,
    spo: i32,
    hits: Seq<u64>,
)
    requires
        e.wf(),
        0 <= spo <= 0x1000_0000,
        p.next_id < u64::MAX,
    ensures
        ({
            let d = e.grid_drag_started(p, pitch, from, a, true, ctrl, spo).grid_dragged(to, b);
            let r = d.grid_drag_stopped(p, hits);
            let q = d.drawn_pattern(p);
            let n = q.notes.last();
            let x = snapped_start(from, e.snap);
            let y = snapped_start(to, e.snap);
            &&& q == (PatternView {
                notes: p.notes.push(n),
                next_id: (p.next_id + 1) as u64,
                ..p
            })
            &&& n.id == p.next_id
            &&& is_held(n.pitch_index as int, pitch as int, 0, -2 * spo, 7 * spo)
            &&& y >= x ==> n.start_step == x && is_held(
                n.length_steps as int,
                y - x,
                UNITS_PER_STEP as int,
                0,
                max_units(),
            )
            &&& y < x ==> n.start_step == y && n.length_steps == UNITS_PER_STEP
            &&& n.velocity == 1_016_000
            &&& n.label.len() == 0
            &&& d.drawn_pitch() == Some(n.pitch_index)
            &&& r == (EditorView {
                selection: r.selection,
                last_note_len: n.length_steps,
                drag: None,
                history: r.history,
                history_pos: r.history_pos,
                ..e
            })
            &&& r.history.last() == p
            &&& r.history_pos + 1 == r.history.len()
            &&& forall|id: u64| #[trigger] r.selection.contains(id) <==> id == n.id
        }),
{
}

proof fn lemma_toggled(selection: Set<u64>, ids: Seq<u64>, x: u64)
    requires
        forall|i: int, j: int| 0 <= i < j < ids.len() ==> ids[i] != ids[j],
    ensures
        toggled(selection, ids).contains(x) <==> (selection.contains(x) != ids.contains(x)),
    decreases ids.len(),
{
    if ids.len() > 0 {
        let rest = ids.drop_last();
        lemma_toggled(selection, rest, x);
        lemma_toggled(selection, rest, ids.last());
        assert(ids[ids.len() - 1] == ids.last());
        if rest.contains(x) {
            let k = rest.index_of(x);
            assert(ids[k] == x);
        }
        if ids.contains(x) && x != ids.last() {
            let k = ids.index_of(x);
            assert(rest[k] == x);
        }
        if rest.contains(ids.last()) {
            let k = rest.index_of(ids.last());
            assert(ids[k] == ids[ids.len() - 1]);
        }
    }
}

/// A rubber band switches over the notes inside it: those that were selected no
/// longer are, the others are. Nothing else changes, and no undo point is made.
pub proof fn a_rubber_band_switches_notes_over(
    e: EditorView,
    p: PatternView,
    pitch: i32,
    step: i32,
    a: Point,
    b: Point,
    spo: i32,
    hits: Seq<u64>,
    x: u64,
)
    requires
        forall|i: int, j: int| 0 <= i < j < hits.len() ==> hits[i] != hits[j],
    ensures
        ({
            let s = e.grid_drag_started(p, pitch, step, a, false, true, spo);
            let d = s.grid_dragged(step, b);
            let r = d.grid_drag_stopped(p, hits);
            &&& s == (EditorView { drag: Some(DragView::Marquee { start: a, cur: a }), ..e })
            &&& d == (EditorView { drag: Some(DragView::Marquee { start: a, cur: b }), ..e })
            &&& r == (EditorView { drag: None, selection: r.selection, ..e })
            &&& r.selection.contains(x) <==> (e.selection.contains(x) != hits.contains(x))
            &&& d.drawn_pattern(p) == p
            &&& d.drawn_pitch() is None
        }),
{
    lemma_toggled(e.selection, hits, x);
}

/// A drag on the empty grid without shift or control does nothing.
pub proof fn a_plain_drag_on_the_grid_does_nothing(
    e: EditorView,
    p: PatternView,
    pitch: i32,
    step: i32,
    a: Point,
    spo: i32,
    hits: Seq<u64>,
)
    requires
        e.drag is None,
    ensures
        e.grid_drag_started(p, pitch, step, a, false, false, spo) == e,
        e.grid_dragged(step, a) == e,
        e.grid_drag_stopped(p, hits) == e,
        e.drawn_pattern(p) == p,
        e.drawn_pitch() is None,
{
}

/// A click on the empty grid records an undo point and adds a note on the row, at
/// the snapped step, as long as the note before it, but at least a step and no
/// longer than the clip. It is selected, with shift besides what was.
pub proof fn a_click_on_the_grid_adds_a_note(
    e: EditorView,
    p: PatternView,
    pitch: i32,
    step: i32,
    shift: bool,
)
    requires
        e.wf(),
        p.total_steps >= 1,
        p.next_id < u64::MAX,
    ensures
        ({
            let r = e.grid_clicked(p, shift);
            let q = e.clicked_pattern(p, pitch, step);
            let n = q.notes.last();
            &&& q == (PatternView {
                notes: p.notes.push(n),
                next_id: (p.next_id + 1) as u64,
                ..p
            })
            &&& n.id == p.next_id
            &&& n.pitch_index == pitch
            &&& is_snapped_start(n.start_step, step, e.snap)
            &&& is_held(
                n.length_steps as int,
                e.last_note_len as int,
                0,
                UNITS_PER_STEP as int,
                p.total_steps * UNITS_PER_STEP,
            )
            &&& n.velocity == 1_016_000
            &&& n.label.len() == 0
            &&& r == (EditorView {
                selection: r.selection,
                history: r.history,
                history_pos: r.history_pos,
                ..e
            })
            &&& r.history.last() == p
            &&& r.history_pos + 1 == r.history.len()
            &&& forall|id: u64| #[trigger]
                r.selection.contains(id) <==> id == n.id || (shift && e.selection.contains(id))
        }),
{
    steps_snap_to_the_grid(step, e.snap);
    assert(UNITS_PER_STEP <= p.total_steps * UNITS_PER_STEP <= max_units());
}

// ---------------------------------------------------------------------------
// Erasing
// ---------------------------------------------------------------------------

/// Erasing over a note takes that note out of the pattern and of the selection,
/// and nothing else. The first note of a stroke records one undo point, the others
/// of the stroke none. Without the button, and over no note, nothing is erased.
pub proof fn erasing_removes_the_note_under_the_pointer(e: EditorView, p: PatternView, i: usize)
    requires
        e.wf(),
        i < p.notes.len(),
    ensures
        ({
            let r = e.erase(p, true, Some(i));
            let q = erased(p, true, Some(i));
            &&& q == (PatternView { notes: q.notes, ..p })
            &&& q.notes.len() + 1 == p.notes.len()
            &&& forall|k: int| 0 <= k < i ==> #[trigger] q.notes[k] == p.notes[k]
            &&& forall|k: int| i <= k < q.notes.len() ==> #[trigger] q.notes[k] == p.notes[k + 1]
            &&& r == (EditorView {
                selection: r.selection,
                erasing: true,
                history: r.history,
                history_pos: r.history_pos,
                ..e
            })
            &&& forall|x: u64| #[trigger]
                r.selection.contains(x) <==> e.selection.contains(x) && x != p.notes[i as int].id
            &&& e.erasing ==> r.history == e.history && r.history_pos == e.history_pos
            &&& !e.erasing ==> r.history.last() == p && r.history_pos + 1 == r.history.len()
        }),
        erased(p, false, Some(i)) == p,
        erased(p, true, None) == p,
        e.erase(p, false, Some(i)) == (EditorView { erasing: false, ..e }),
        e.erase(p, false, None) == (EditorView { erasing: false, ..e }),
        e.erase(p, true, None) == e,
{
}

} // verus!
