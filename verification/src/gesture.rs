//! What the pointer does in the piano roll: erasing, seeking, drawing, rubber-
//! band selection, clicking, moving and resizing.
//!
//! The caller finds out what is under the pointer and how far it moved, in whole
//! rows and steps; these functions decide what that does to the pattern and the
//! editor, and which pitch is to be previewed.
use std::collections::HashSet;
use vstd::prelude::*;

use crate::display::snap_to;
use crate::grid::{Steps, UNITS_PER_STEP};
use crate::level::DEFAULT_VELOCITY;
use crate::pattern::{find_note, step_or_more, Note, Pattern};
use crate::pianoroll::{
    add_copies, clamp_position, pick_selected, start_of_last_step, Drag, Edge, EditorState, Point,
};
#[allow(unused_imports)]
use crate::display::snapped;
#[allow(unused_imports)]
use crate::grid::{held_units, max_units, steps_views};
#[allow(unused_imports)]
use crate::pattern::{
    at_least_one, at_least_one_step, first_with_id, lemma_first_with_id_found, note_views, NoteView,
    PatternView,
};
#[allow(unused_imports)]
use crate::pianoroll::{
    extent_views, into_range, last_step_start, next_ids, place_views, plus_copies, same_starts, selected_of, DragView,
    EditorView,
};

verus! {

broadcast use vstd::std_specs::hash::group_hash_axioms;

/// Lowest and highest octave that a note can be dragged to, counted from the
/// octave of degree 0.
pub const LOWEST_OCTAVE: i64 = -2;

pub const HIGHEST_OCTAVE: i64 = 7;

/// `p` moved into the range of pitches that a drag can reach.
pub open spec fn reachable_pitch(p: int, spo: int) -> int {
    if p < LOWEST_OCTAVE * spo {
        LOWEST_OCTAVE * spo
    } else if p > HIGHEST_OCTAVE * spo {
        HIGHEST_OCTAVE * spo
    } else {
        p
    }
}

/// `x` as a pitch, as far as a pitch can say.
pub open spec fn as_pitch(x: int) -> i32 {
    if x < i32::MIN {
        i32::MIN
    } else if x > i32::MAX {
        i32::MAX
    } else {
        x as i32
    }
}

/// Moves a pitch into the range that a drag can reach.
pub fn pitch_clamp(p: i64, spo: i32) -> (r: i32)
    requires
        spo >= 0,
    ensures
        r == as_pitch(reachable_pitch(p as int, spo as int)),
{
    let low: i64 = -2 * spo as i64;
    let high: i64 = 7 * spo as i64;
    let q: i64 = if p < low {
        low
    } else if p > high {
        high
    } else {
        p
    };
    if q < i32::MIN as i64 {
        i32::MIN
    } else if q > i32::MAX as i64 {
        i32::MAX
    } else {
        q as i32
    }
}

/// The snapped grid position of a step, never before the start.
pub open spec fn snapped_start(step: i32, snap: nat) -> nat {
    into_range(snapped(step * UNITS_PER_STEP, snap as int), max_units())
}

/// The snapped grid position of a step.
fn snap_start(step: i32, snap: Steps) -> (r: Steps)
    ensures
        r@ == snapped_start(step, snap@),
{
    clamp_position(snap_to(step_units(step), snap.units()), most_units())
}

/// A number of steps in units.
fn step_units(step: i32) -> (r: i128)
    ensures
        r == step * UNITS_PER_STEP,
        -0x1_0000_0000_0000_0000_0000_0000 <= r <= 0x1_0000_0000_0000_0000_0000_0000,
{
    assert(-0x1_0000_0000_0000_0000_0000_0000 <= step * 1_496_020_807_977_696_000
        <= 0x1_0000_0000_0000_0000_0000_0000);
    step as i128 * UNITS_PER_STEP as i128
}

/// The largest number of units.
fn most_units() -> (r: i128)
    ensures
        r == max_units(),
{
    assert(max_units() == 27_596_712_973_708_738_786_066_007_888_756_735_999);
    27_596_712_973_708_738_786_066_007_888_756_735_999
}

/// The grid position that a click on the ruler seeks to: the start of the step
/// under the pointer, kept inside the clip.
pub open spec fn seek_position(step: i32, total_steps: usize) -> nat {
    into_range(step * UNITS_PER_STEP, last_step_start(total_steps) as int)
}

/// The grid position that a click on the ruler seeks to.
pub fn seek_target(step: i32, total_steps: usize) -> (r: Steps)
    ensures
        r@ == seek_position(step, total_steps),
{
    clamp_position(step_units(step), start_of_last_step(total_steps))
}

/// Which edge of a note a drag grabs; the left one where both are near.
pub fn grabbed_edge(near_left: bool, near_right: bool) -> (r: Option<Edge>)
    ensures
        near_left ==> r == Some(Edge::Left),
        !near_left && near_right ==> r == Some(Edge::Right),
        !near_left && !near_right ==> r is None,
{
    if near_left {
        Some(Edge::Left)
    } else if near_right {
        Some(Edge::Right)
    } else {
        None
    }
}

// ---------------------------------------------------------------------------
// Erasing
// ---------------------------------------------------------------------------

impl EditorView {
    /// After a moment of an erase stroke over note `hit`. The first note of a
    /// stroke records an undo point.
    pub open spec fn erase(self, p: PatternView, pressed: bool, hit: Option<usize>) -> EditorView {
        match hit {
            Some(i) => if pressed {
                EditorView {
                    erasing: true,
                    selection: self.selection.remove(p.notes[i as int].id),
                    ..(if self.erasing {
                        self
                    } else {
                        self.begin_edit(p)
                    })
                }
            } else {
                EditorView { erasing: false, ..self }
            },
            None => EditorView { erasing: pressed && self.erasing, ..self },
        }
    }
}

/// The pattern after a moment of an erase stroke over note `hit`.
pub open spec fn erased(p: PatternView, pressed: bool, hit: Option<usize>) -> PatternView {
    match hit {
        Some(i) => if pressed {
            PatternView { notes: p.notes.remove(i as int), ..p }
        } else {
            p
        },
        None => p,
    }
}

impl EditorState {
    /// Right-button erase-drag: removes the note under the pointer. `pressed`
    /// says whether the button is down, `hit` which note is under the pointer.
    pub fn erase_under(&mut self, pat: &mut Pattern, pressed: bool, hit: Option<usize>)
        requires
            old(self)@.wf(),
            hit matches Some(i) ==> i < old(pat)@.notes.len(),
        ensures
            final(self)@ == old(self)@.erase(old(pat)@, pressed, hit),
            final(pat)@ == erased(old(pat)@, pressed, hit),
            final(self)@.wf(),
    {
        if !pressed {
            self.erasing = false;
        } else if let Some(i) = hit {
            if !self.erasing {
                self.begin_edit(pat);
                self.erasing = true;
            }
            let gone = pat.notes.remove(i);
            self.selection.remove(&gone.id);
            assert(pat@.notes =~= old(pat)@.notes.remove(i as int));
        }
        assert(self@ =~= old(self)@.erase(old(pat)@, pressed, hit));
    }
}

// ---------------------------------------------------------------------------
// Drags and clicks on the empty grid
// ---------------------------------------------------------------------------

/// The selection with each of the notes in `ids` switched over, in order.
pub open spec fn toggled(selection: Set<u64>, ids: Seq<u64>) -> Set<u64>
    decreases ids.len(),
{
    if ids.len() == 0 {
        selection
    } else {
        let rest = toggled(selection, ids.drop_last());
        if rest.contains(ids.last()) {
            rest.remove(ids.last())
        } else {
            rest.insert(ids.last())
        }
    }
}

/// Where a drawn note starts.
pub open spec fn drawn_start(a: nat, b: nat) -> nat {
    if a < b {
        a
    } else {
        b
    }
}

/// How long a drawn note is: up to the end of the step where the drag stopped.
pub open spec fn drawn_len(a: nat, b: nat) -> nat {
    let d = if a < b {
        b - a
    } else {
        a - b
    };
    into_range(d + UNITS_PER_STEP, max_units())
}

impl EditorView {
    /// After a drag started on the empty grid.
    pub open spec fn grid_drag_started(
        self,
        p: PatternView,
        pitch: i32,
        step: i32,
        at: Point,
        shift: bool,
        ctrl: bool,
        spo: i32,
    ) -> EditorView {
        if shift {
            EditorView {
                drag: Some(
                    DragView::Draw {
                        pitch: as_pitch(reachable_pitch(pitch as int, spo as int)),
                        start_step: snapped_start(step, self.snap),
                        cur_step: snapped_start(step, self.snap),
                    },
                ),
                ..self.begin_edit(p)
            }
        } else if ctrl {
            EditorView { drag: Some(DragView::Marquee { start: at, cur: at }), ..self }
        } else {
            self
        }
    }

    /// After the pointer moved in a drag on the empty grid.
    pub open spec fn grid_dragged(self, step: i32, at: Point) -> EditorView {
        match self.drag {
            Some(DragView::Draw { pitch, start_step, cur_step }) => EditorView {
                drag: Some(
                    DragView::Draw {
                        pitch,
                        start_step: drawn_start(start_step, snapped_start(step, self.snap)),
                        cur_step: snapped_start(step, self.snap),
                    },
                ),
                ..self
            },
            Some(DragView::Marquee { start, cur }) => EditorView {
                drag: Some(DragView::Marquee { start, cur: at }),
                ..self
            },
            _ => self,
        }
    }

    /// After a drag on the empty grid stopped, with the notes `hits` inside the
    /// rubber band.
    pub open spec fn grid_drag_stopped(self, p: PatternView, hits: Seq<u64>) -> EditorView {
        match self.drag {
            Some(DragView::Draw { pitch, start_step, cur_step }) => EditorView {
                drag: None,
                last_note_len: drawn_len(start_step, cur_step),
                selection: Set::empty().insert(p.next_id),
                ..self
            },
            Some(DragView::Marquee { .. }) => EditorView {
                drag: None,
                selection: toggled(self.selection, hits),
                ..self
            },
            _ => EditorView { drag: None, ..self },
        }
    }

    /// The pattern after a drag on the empty grid stopped.
    pub open spec fn drawn_pattern(self, p: PatternView) -> PatternView {
        match self.drag {
            Some(DragView::Draw { pitch, start_step, cur_step }) => p.add_note(
                pitch,
                drawn_start(start_step, cur_step),
                drawn_len(start_step, cur_step),
                DEFAULT_VELOCITY,
            ),
            _ => p,
        }
    }

    /// The pitch of the note that a drag on the empty grid draws.
    pub open spec fn drawn_pitch(self) -> Option<i32> {
        match self.drag {
            Some(DragView::Draw { pitch, .. }) => Some(pitch),
            _ => None,
        }
    }

    /// The length of a note that a click adds: the last length, but no longer
    /// than the clip.
    pub open spec fn click_len(self, total_steps: usize) -> nat {
        into_range(
            at_least_one_step(self.last_note_len) as int,
            held_units(at_least_one(total_steps) * UNITS_PER_STEP),
        )
    }

    /// After a click on the empty grid.
    pub open spec fn grid_clicked(self, p: PatternView, shift: bool) -> EditorView {
        EditorView {
            selection: (if shift {
                self.selection
            } else {
                Set::empty()
            }).insert(p.next_id),
            ..self.begin_edit(p)
        }
    }

    /// The pattern after a click on the empty grid.
    pub open spec fn clicked_pattern(self, p: PatternView, pitch: i32, step: i32) -> PatternView {
        p.add_note(
            pitch,
            snapped_start(step, self.snap),
            self.click_len(p.total_steps),
            DEFAULT_VELOCITY,
        )
    }
}

/// Switches over each of the notes in `ids`.
fn toggle_all(selection: &mut HashSet<u64>, ids: &Vec<u64>)
    ensures
        final(selection)@ == toggled(old(selection)@, ids@),
{
    for i in 0..ids.len()
        invariant
            selection@ == toggled(old(selection)@, ids@.take(i as int)),
    {
        assert(ids@.take(i + 1).drop_last() =~= ids@.take(i as int));
        let id = ids[i];
        if selection.contains(&id) {
            selection.remove(&id);
        } else {
            selection.insert(id);
        }
    }
    assert(ids@.take(ids.len() as int) =~= ids@);
}

impl EditorState {
    /// A drag starts on the empty grid, at a row and step: with shift it draws
    /// a note, with ctrl it opens a rubber band.
    pub fn grid_drag_started(
        &mut self,
        pat: &Pattern,
        pitch: i32,
        step: i32,
        at: Point,
        shift: bool,
        ctrl: bool,
        spo: i32,
    )
        requires
            old(self)@.wf(),
            spo >= 0,
        ensures
            final(self)@ == old(self)@.grid_drag_started(pat@, pitch, step, at, shift, ctrl, spo),
            final(self)@.wf(),
    {
        if shift {
            self.begin_edit(pat);
            let s = snap_start(step, self.snap);
            self.drag = Some(
                Drag::Draw { pitch: pitch_clamp(pitch as i64, spo), start_step: s, cur_step: s },
            );
        } else if ctrl {
            self.drag = Some(Drag::Marquee { start: at, cur: at });
        }
        assert(self@ =~= old(self)@.grid_drag_started(pat@, pitch, step, at, shift, ctrl, spo));
    }

    /// The pointer moves in a drag on the empty grid.
    pub fn grid_dragged(&mut self, step: i32, at: Point)
        ensures
            final(self)@ == old(self)@.grid_dragged(step, at),
            old(self)@.wf() ==> final(self)@.wf(),
    {
        let ns = snap_start(step, self.snap);
        let drag = self.drag.take();
        self.drag = match drag {
            Some(Drag::Draw { pitch, start_step, cur_step: _ }) => Some(
                Drag::Draw {
                    pitch,
                    start_step: if start_step.units() < ns.units() {
                        start_step
                    } else {
                        ns
                    },
                    cur_step: ns,
                },
            ),
            Some(Drag::Marquee { start, cur: _ }) => Some(Drag::Marquee { start, cur: at }),
            other => other,
        };
        assert(self@ =~= old(self)@.grid_dragged(step, at));
    }

    /// A drag on the empty grid stops: a drawn note is added and selected, the
    /// notes in a rubber band (`hits`) are switched over. Gives the pitch to
    /// preview.
    pub fn grid_drag_stopped(&mut self, pat: &mut Pattern, hits: &Vec<u64>) -> (r: Option<i32>)
        requires
            old(self)@.wf(),
            old(self)@.drawn_pitch() is Some ==> old(pat)@.next_id < u64::MAX,
        ensures
            final(self)@ == old(self)@.grid_drag_stopped(old(pat)@, hits@),
            final(pat)@ == old(self)@.drawn_pattern(old(pat)@),
            r == old(self)@.drawn_pitch(),
            final(self)@.wf(),
    {
        let drag = self.drag.take();
        match drag {
            Some(Drag::Draw { pitch, start_step, cur_step }) => {
                let (s0, s1) = if start_step.units() < cur_step.units() {
                    (start_step, cur_step)
                } else {
                    (cur_step, start_step)
                };
                let len = clamp_position(
                    (s1.units() - s0.units()) as i128 + UNITS_PER_STEP as i128,
                    most_units(),
                );
                let id = pat.add_note(pitch, s0, len, DEFAULT_VELOCITY);
                self.last_note_len = len;
                self.selection.clear();
                self.selection.insert(id);
                assert(self@ =~= old(self)@.grid_drag_stopped(old(pat)@, hits@));
                Some(pitch)
            },
            Some(Drag::Marquee { start: _, cur: _ }) => {
                toggle_all(&mut self.selection, hits);
                assert(self@ =~= old(self)@.grid_drag_stopped(old(pat)@, hits@));
                None
            },
            _ => {
                assert(self@ =~= old(self)@.grid_drag_stopped(old(pat)@, hits@));
                None
            },
        }
    }

    /// A click on the empty grid adds a note at the row and step and selects
    /// it, with shift on top of what is selected. Gives the pitch to preview.
    pub fn grid_clicked(&mut self, pat: &mut Pattern, pitch: i32, step: i32, shift: bool) -> (r:
        Option<i32>)
        requires
            old(self)@.wf(),
            old(pat)@.next_id < u64::MAX,
        ensures
            final(self)@ == old(self)@.grid_clicked(old(pat)@, shift),
            final(pat)@ == old(self)@.clicked_pattern(old(pat)@, pitch, step),
            r == Some(pitch),
            final(self)@.wf(),
    {
        let start = snap_start(step, self.snap);
        self.begin_edit(pat);
        let steps: u128 = if pat.total_steps < 1 {
            1
        } else {
            pat.total_steps as u128
        };
        assert(steps * 1_496_020_807_977_696_000 <= u128::MAX);
        let most = Steps::from_units(steps * UNITS_PER_STEP as u128);
        let last = step_or_more(self.last_note_len);
        let len = clamp_position(last.units() as i128, most.units() as i128);
        let id = pat.add_note(pitch, start, len, DEFAULT_VELOCITY);
        if !shift {
            self.selection.clear();
        }
        self.selection.insert(id);
        assert(self@ =~= old(self)@.grid_clicked(old(pat)@, shift));
        Some(pitch)
    }
}

// ---------------------------------------------------------------------------
// Clicks and drags on notes
// ---------------------------------------------------------------------------

/// How far a group of notes is dragged, in rows and units.
pub struct Shift {
    pub pitch: int,
    pub units: int,
}

/// A note of a moved group.
pub open spec fn moved_note(
    n: NoteView,
    orig: (i32, nat),
    by: Shift,
    spo: int,
    total_steps: usize,
) -> NoteView {
    NoteView {
        pitch_index: as_pitch(reachable_pitch(orig.0 + by.pitch, spo)),
        start_step: into_range(orig.1 + by.units, last_step_start(total_steps) as int),
        ..n
    }
}

/// The notes with each note of a group moved from where the drag found it.
pub open spec fn moved_group(
    notes: Seq<NoteView>,
    ids: Seq<u64>,
    orig: Seq<(i32, nat)>,
    by: Shift,
    spo: int,
    total_steps: usize,
) -> Seq<NoteView>
    decreases ids.len(),
{
    if ids.len() == 0 || orig.len() == 0 {
        notes
    } else if ids.len() > orig.len() {
        moved_group(notes, ids.drop_last(), orig, by, spo, total_steps)
    } else {
        let k = ids.len() - 1;
        let rest = moved_group(notes, ids.drop_last(), orig, by, spo, total_steps);
        let i = first_with_id(rest, ids[k]);
        if i < rest.len() {
            rest.update(i, moved_note(rest[i], orig[k], by, spo, total_steps))
        } else {
            rest
        }
    }
}

/// `x` moved into `low ..= high`; where the range is empty, `low`.
pub open spec fn held_between(x: int, low: int, high: int) -> int {
    let y = if x > high {
        high
    } else {
        x
    };
    if y < low {
        low
    } else {
        y
    }
}

/// A note of a resized group. Its right edge stays inside the clip, its left
/// edge before the right one, and it stays at least a step long.
pub open spec fn resized_note(
    n: NoteView,
    orig: (nat, nat),
    edge: Edge,
    by: int,
    total: int,
) -> NoteView {
    let u = UNITS_PER_STEP as int;
    match edge {
        Edge::Right => NoteView {
            length_steps: into_range(held_between(orig.1 + by, u, total - orig.0), max_units()),
            ..n
        },
        Edge::Left => {
            let end = orig.0 as int + orig.1 as int;
            let high = if end - u < total - u {
                end - u
            } else {
                total - u
            };
            let start = into_range(held_between(orig.0 + by, 0, high), max_units());
            NoteView {
                start_step: start,
                length_steps: into_range(
                    if end - start < u {
                        u
                    } else {
                        end - start
                    },
                    max_units(),
                ),
                ..n
            }
        },
    }
}

/// The notes with each note of a group resized from the extent that the drag
/// found.
pub open spec fn resized_group(
    notes: Seq<NoteView>,
    ids: Seq<u64>,
    orig: Seq<(nat, nat)>,
    edge: Edge,
    by: int,
    total: int,
) -> Seq<NoteView>
    decreases ids.len(),
{
    if ids.len() == 0 || orig.len() == 0 {
        notes
    } else if ids.len() > orig.len() {
        resized_group(notes, ids.drop_last(), orig, edge, by, total)
    } else {
        let k = ids.len() - 1;
        let rest = resized_group(notes, ids.drop_last(), orig, edge, by, total);
        let i = first_with_id(rest, ids[k]);
        if i < rest.len() {
            rest.update(i, resized_note(rest[i], orig[k], edge, by, total))
        } else {
            rest
        }
    }
}

/// The length of a clip in units, at least a step.
pub open spec fn clip_units(total_steps: usize) -> int {
    at_least_one(total_steps) * UNITS_PER_STEP
}

/// The note with identity `id`, if there is one.
pub open spec fn note_with_id(notes: Seq<NoteView>, id: u64) -> Option<NoteView> {
    let i = first_with_id(notes, id);
    if i < notes.len() {
        Some(notes[i])
    } else {
        None
    }
}

/// The identities of notes.
pub open spec fn ids_of(notes: Seq<NoteView>) -> Seq<u64> {
    Seq::new(notes.len(), |i: int| notes[i].id)
}

/// Pitch and start of each note.
pub open spec fn places_of(notes: Seq<NoteView>) -> Seq<(i32, nat)> {
    Seq::new(notes.len(), |i: int| (notes[i].pitch_index, notes[i].start_step))
}

/// Start and length of each note.
pub open spec fn extents_of(notes: Seq<NoteView>) -> Seq<(nat, nat)> {
    Seq::new(notes.len(), |i: int| (notes[i].start_step, notes[i].length_steps))
}

impl EditorView {
    /// Whether a click on note `id` duplicates the whole selection.
    pub open spec fn click_duplicates(self, p: PatternView, id: u64, shift: bool) -> bool {
        note_with_id(p.notes, id) is Some && shift && self.selection.contains(id)
    }

    /// After a click on note `id`: it is selected; with shift it is added to
    /// the selection, or the selection is duplicated in place.
    pub open spec fn note_clicked(self, p: PatternView, id: u64, shift: bool) -> EditorView {
        let group = selected_of(p.notes, self.selection);
        match note_with_id(p.notes, id) {
            None => self,
            Some(n) => if self.click_duplicates(p, id, shift) {
                EditorView {
                    selection: next_ids(p, group.len() as int),
                    last_note_len: group.last().length_steps,
                    ..self.begin_edit(p)
                }
            } else {
                EditorView {
                    selection: (if shift {
                        self.selection
                    } else {
                        Set::empty()
                    }).insert(id),
                    last_note_len: n.length_steps,
                    ..self
                }
            },
        }
    }

    /// The pattern after a click on note `id`.
    pub open spec fn note_clicked_pattern(self, p: PatternView, id: u64, shift: bool) -> PatternView {
        let group = selected_of(p.notes, self.selection);
        if self.click_duplicates(p, id, shift) {
            plus_copies(p, group, same_starts(group))
        } else {
            p
        }
    }

    /// The pitch that a click on note `id` previews.
    pub open spec fn note_clicked_pitch(self, p: PatternView, id: u64, shift: bool) -> Option<i32> {
        if self.click_duplicates(p, id, shift) {
            Some(selected_of(p.notes, self.selection).last().pitch_index)
        } else {
            None
        }
    }

    /// The selection after a drag started on note `id`: a note outside the
    /// selection replaces it, unless shift is held.
    pub open spec fn drag_selection(self, id: u64, shift: bool) -> Set<u64> {
        if !self.selection.contains(id) && !shift {
            Set::empty().insert(id)
        } else {
            self.selection.insert(id)
        }
    }

    /// After a drag started on note `id`, at one of its edges or its body.
    pub open spec fn note_drag_started(
        self,
        p: PatternView,
        id: u64,
        edge: Option<Edge>,
        shift: bool,
    ) -> EditorView {
        let selection = self.drag_selection(id, shift);
        let group = selected_of(p.notes, selection);
        let drag = match edge {
            Some(e) => Some(
                DragView::NoteResize {
                    ids: ids_of(group),
                    orig: extents_of(group),
                    edge: e,
                    hit_id: id,
                },
            ),
            None => match note_with_id(p.notes, id) {
                Some(n) => Some(
                    DragView::NoteMove {
                        ids: ids_of(group),
                        orig: places_of(group),
                        hit_id: id,
                        last_pitch: Some(n.pitch_index),
                    },
                ),
                None => self.drag,
            },
        };
        EditorView { drag, selection, ..self.begin_edit(p) }
    }

    /// How far the snapped drag of notes goes.
    pub open spec fn drag_units(self, d_step: i32) -> int {
        snapped(d_step * UNITS_PER_STEP, self.snap as int)
    }

    /// The pattern after the pointer moved in a drag of notes.
    pub open spec fn note_dragged_pattern(
        self,
        p: PatternView,
        d_pitch: i32,
        d_step: i32,
        spo: i32,
    ) -> PatternView {
        match self.drag {
            Some(DragView::NoteMove { ids, orig, .. }) => PatternView {
                notes: moved_group(
                    p.notes,
                    ids,
                    orig,
                    Shift { pitch: d_pitch as int, units: self.drag_units(d_step) },
                    spo as int,
                    p.total_steps,
                ),
                ..p
            },
            Some(DragView::NoteResize { ids, orig, edge, .. }) => PatternView {
                notes: resized_group(
                    p.notes,
                    ids,
                    orig,
                    edge,
                    self.drag_units(d_step),
                    clip_units(p.total_steps),
                ),
                ..p
            },
            _ => p,
        }
    }

    /// The pitch that a drag of notes to pattern `q` previews: that of the note
    /// under the pointer, where it changed.
    pub open spec fn note_dragged_pitch(self, q: PatternView) -> Option<i32> {
        match self.drag {
            Some(DragView::NoteMove { hit_id, last_pitch, .. }) => match note_with_id(
                q.notes,
                hit_id,
            ) {
                Some(n) => if last_pitch == Some(n.pitch_index) {
                    None
                } else {
                    Some(n.pitch_index)
                },
                None => None,
            },
            _ => None,
        }
    }

    /// After the pointer moved in a drag of notes, which made pattern `q`. The
    /// length of a resized note becomes the length for new notes.
    pub open spec fn note_dragged(self, q: PatternView) -> EditorView {
        match self.drag {
            Some(DragView::NoteMove { ids, orig, hit_id, last_pitch }) => EditorView {
                drag: Some(
                    DragView::NoteMove {
                        ids,
                        orig,
                        hit_id,
                        last_pitch: match self.note_dragged_pitch(q) {
                            Some(pitch) => Some(pitch),
                            None => last_pitch,
                        },
                    },
                ),
                ..self
            },
            Some(DragView::NoteResize { hit_id, .. }) => match note_with_id(q.notes, hit_id) {
                Some(n) => EditorView { last_note_len: n.length_steps, ..self },
                None => self,
            },
            _ => self,
        }
    }

    /// After a drag of notes stopped.
    pub open spec fn note_drag_stopped(self) -> EditorView {
        match self.drag {
            Some(DragView::NoteMove { .. }) => EditorView { drag: None, ..self },
            Some(DragView::NoteResize { .. }) => EditorView { drag: None, ..self },
            _ => self,
        }
    }
}

/// The identities of a group.
fn group_ids(group: &Vec<Note>) -> (r: Vec<u64>)
    ensures
        r@ == ids_of(note_views(group@)),
{
    let mut r: Vec<u64> = Vec::new();
    for i in 0..group.len()
        invariant
            r.len() == i,
            forall|j: int| 0 <= j < i ==> #[trigger] r[j] == group[j].id,
    {
        r.push(group[i].id);
    }
    assert(r@ =~= ids_of(note_views(group@)));
    r
}

/// Pitch and start of each note of a group.
fn group_places(group: &Vec<Note>) -> (r: Vec<(i32, Steps)>)
    ensures
        place_views(r@) == places_of(note_views(group@)),
{
    let mut r: Vec<(i32, Steps)> = Vec::new();
    for i in 0..group.len()
        invariant
            r.len() == i,
            forall|j: int|
                0 <= j < i ==> #[trigger] r[j] == (group[j].pitch_index, group[j].start_step),
    {
        r.push((group[i].pitch_index, group[i].start_step));
    }
    assert(place_views(r@) =~= places_of(note_views(group@)));
    r
}

/// Start and length of each note of a group.
fn group_extents(group: &Vec<Note>) -> (r: Vec<(Steps, Steps)>)
    ensures
        extent_views(r@) == extents_of(note_views(group@)),
{
    let mut r: Vec<(Steps, Steps)> = Vec::new();
    for i in 0..group.len()
        invariant
            r.len() == i,
            forall|j: int|
                0 <= j < i ==> #[trigger] r[j] == (group[j].start_step, group[j].length_steps),
    {
        r.push((group[i].start_step, group[i].length_steps));
    }
    assert(extent_views(r@) =~= extents_of(note_views(group@)));
    r
}

/// The starts of a group.
fn group_starts(group: &Vec<Note>) -> (r: Vec<Steps>)
    ensures
        steps_views(r@) == same_starts(note_views(group@)),
        r.len() == group.len(),
{
    let mut r: Vec<Steps> = Vec::new();
    for i in 0..group.len()
        invariant
            r.len() == i,
            forall|j: int| 0 <= j < i ==> #[trigger] r[j] == group[j].start_step,
    {
        r.push(group[i].start_step);
    }
    assert(steps_views(r@) =~= same_starts(note_views(group@)));
    r
}

/// Moves each note of a group from where the drag found it.
fn move_notes(
    pat: &mut Pattern,
    ids: &Vec<u64>,
    orig: &Vec<(i32, Steps)>,
    d_pitch: i32,
    d_units: i128,
    spo: i32,
)
    requires
        spo >= 0,
        -0x2000_0000_0000_0000_0000_0000_0000_0000 <= d_units
            <= 0x2000_0000_0000_0000_0000_0000_0000_0000,
    ensures
        final(pat)@ == (PatternView {
            notes: moved_group(
                old(pat)@.notes,
                ids@,
                place_views(orig@),
                Shift { pitch: d_pitch as int, units: d_units as int },
                spo as int,
                old(pat)@.total_steps,
            ),
            ..old(pat)@
        }),
{
    let ghost before = pat@;
    let ghost by = Shift { pitch: d_pitch as int, units: d_units as int };
    let last = start_of_last_step(pat.total_steps);
    for k in 0..ids.len()
        invariant
            spo >= 0,
            -0x2000_0000_0000_0000_0000_0000_0000_0000 <= d_units
            <= 0x2000_0000_0000_0000_0000_0000_0000_0000,
            last == last_step_start(before.total_steps),
            last <= max_units(),
            by == (Shift { pitch: d_pitch as int, units: d_units as int }),
            pat@ == (PatternView {
                notes: moved_group(
                    before.notes,
                    ids@.take(k as int),
                    place_views(orig@),
                    by,
                    spo as int,
                    before.total_steps,
                ),
                ..before
            }),
    {
        let ghost prior = pat@.notes;
        assert(ids@.take(k + 1).drop_last() =~= ids@.take(k as int));
        if k < orig.len() {
            proof {
                lemma_first_with_id_found(prior, ids[k as int]);
            }
            let (op, os) = orig[k];
            if let Some(i) = find_note(&pat.notes, ids[k]) {
                pat.notes[i].pitch_index = pitch_clamp(op as i64 + d_pitch as i64, spo);
                pat.notes[i].start_step = clamp_position(os.units() as i128 + d_units, last);
                assert(pat@.notes =~= prior.update(
                    i as int,
                    moved_note(
                        prior[i as int],
                        place_views(orig@)[k as int],
                        by,
                        spo as int,
                        before.total_steps,
                    ),
                ));
            }
        }
    }
    assert(ids@.take(ids.len() as int) =~= ids@);
}

/// Moves `x` into `low ..= high`; where the range is empty, to `low`.
fn hold_between(x: i128, low: i128, high: i128) -> (r: i128)
    ensures
        r == held_between(x as int, low as int, high as int),
{
    let y = if x > high {
        high
    } else {
        x
    };
    if y < low {
        low
    } else {
        y
    }
}

/// Resizes each note of a group from the extent that the drag found.
fn resize_notes(
    pat: &mut Pattern,
    ids: &Vec<u64>,
    orig: &Vec<(Steps, Steps)>,
    edge: Edge,
    by: i128,
)
    requires
        -0x2000_0000_0000_0000_0000_0000_0000_0000 <= by
            <= 0x2000_0000_0000_0000_0000_0000_0000_0000,
    ensures
        final(pat)@ == (PatternView {
            notes: resized_group(
                old(pat)@.notes,
                ids@,
                extent_views(orig@),
                edge,
                by as int,
                clip_units(old(pat)@.total_steps),
            ),
            ..old(pat)@
        }),
{
    let ghost before = pat@;
    let u: i128 = UNITS_PER_STEP as i128;
    let steps: i128 = if pat.total_steps < 1 {
        1
    } else {
        pat.total_steps as i128
    };
    assert(steps * 1_496_020_807_977_696_000 <= 0x2000_0000_0000_0000_0000_0000_0000_0000);
    let total: i128 = steps * UNITS_PER_STEP as i128;
    let most = most_units();
    for k in 0..ids.len()
        invariant
            u == UNITS_PER_STEP,
            total == clip_units(before.total_steps),
            0 <= total <= 0x2000_0000_0000_0000_0000_0000_0000_0000,
            most == max_units(),
            -0x2000_0000_0000_0000_0000_0000_0000_0000 <= by
            <= 0x2000_0000_0000_0000_0000_0000_0000_0000,
            pat@ == (PatternView {
                notes: resized_group(
                    before.notes,
                    ids@.take(k as int),
                    extent_views(orig@),
                    edge,
                    by as int,
                    total as int,
                ),
                ..before
            }),
    {
        let ghost prior = pat@.notes;
        assert(ids@.take(k + 1).drop_last() =~= ids@.take(k as int));
        if k < orig.len() {
            proof {
                lemma_first_with_id_found(prior, ids[k as int]);
            }
            let os: i128 = orig[k].0.units() as i128;
            let ol: i128 = orig[k].1.units() as i128;
            if let Some(i) = find_note(&pat.notes, ids[k]) {
                match edge {
                    Edge::Right => {
                        let len = hold_between(ol + by, u, total - os);
                        pat.notes[i].length_steps = clamp_position(len, most);
                    },
                    Edge::Left => {
                        let end: i128 = os + ol;
                        let high: i128 = if end - u < total - u {
                            end - u
                        } else {
                            total - u
                        };
                        let start = clamp_position(
                            hold_between(os + by, 0, high),
                            most,
                        );
                        let rest: i128 = end - start.units() as i128;
                        pat.notes[i].start_step = start;
                        pat.notes[i].length_steps = clamp_position(
                            if rest < u {
                                u
                            } else {
                                rest
                            },
                            most,
                        );
                    },
                }
                assert(pat@.notes =~= prior.update(
                    i as int,
                    resized_note(
                        prior[i as int],
                        extent_views(orig@)[k as int],
                        edge,
                        by as int,
                        total as int,
                    ),
                ));
            }
        }
    }
    assert(ids@.take(ids.len() as int) =~= ids@);
}

proof fn lemma_snapped_bound(v: int, snap: int)
    requires
        snap >= 0,
    ensures
        v >= 0 ==> 0 <= snapped(v, snap) <= v + snap,
        v < 0 ==> v - snap <= snapped(v, snap) <= 0,
{
    if snap > 0 {
        let size = if v < 0 {
            -v
        } else {
            v
        };
        let q = (2 * size + snap) / (2 * snap);
        assert(0 <= q * snap <= size + snap) by (nonlinear_arith)
            requires
                q == (2 * size + snap) / (2 * snap),
                snap > 0,
                size >= 0,
        ;
    }
}

impl EditorState {
    /// A click on a note: select; with shift add to the selection, or duplicate
    /// the whole selection in place when the note is part of it. Gives the
    /// pitch to preview.
    pub fn note_clicked(&mut self, pat: &mut Pattern, id: u64, shift: bool) -> (r: Option<i32>)
        requires
            old(self)@.wf(),
            old(self)@.click_duplicates(old(pat)@, id, shift) ==> old(pat)@.next_id + old(
                pat,
            )@.notes.len() <= u64::MAX,
        ensures
            final(self)@ == old(self)@.note_clicked(old(pat)@, id, shift),
            final(pat)@ == old(self)@.note_clicked_pattern(old(pat)@, id, shift),
            r == old(self)@.note_clicked_pitch(old(pat)@, id, shift),
            final(self)@.wf(),
    {
        let ghost p = pat@;
        proof {
            lemma_first_with_id_found(p.notes, id);
        }
        match find_note(&pat.notes, id) {
            None => None,
            Some(at) => {
                let length = pat.notes[at].length_steps;
                if shift {
                    if self.selection.contains(&id) {
                        self.begin_edit(pat);
                        let group = pick_selected(&pat.notes, &self.selection);
                        let ghost pred = |n: NoteView| old(self)@.selection.contains(n.id);
                        let ghost views = note_views(group@);
                        proof {
                            p.notes.lemma_filter_len(pred);
                            p.notes.lemma_filter_contains(pred, at as int);
                            assert(views.len() > 0);
                        }
                        let starts = group_starts(&group);
                        self.selection = add_copies(pat, &group, &starts);
                        let last = &group[group.len() - 1];
                        self.last_note_len = last.length_steps;
                        assert(views.last() == last@);
                        assert(self@ =~= old(self)@.note_clicked(p, id, shift));
                        return Some(last.pitch_index);
                    }
                } else {
                    self.selection.clear();
                }
                self.selection.insert(id);
                self.last_note_len = length;
                assert(self@ =~= old(self)@.note_clicked(p, id, shift));
                None
            },
        }
    }

    /// A drag starts on a note, at an edge (resize) or on its body (move). It
    /// takes the selection along.
    pub fn note_drag_started(&mut self, pat: &Pattern, id: u64, edge: Option<Edge>, shift: bool)
        requires
            old(self)@.wf(),
        ensures
            final(self)@ == old(self)@.note_drag_started(pat@, id, edge, shift),
            final(self)@.wf(),
    {
        proof {
            lemma_first_with_id_found(pat@.notes, id);
        }
        if !self.selection.contains(&id) && !shift {
            self.selection.clear();
        }
        self.selection.insert(id);
        let group = pick_selected(&pat.notes, &self.selection);
        self.begin_edit(pat);
        match edge {
            Some(e) => {
                self.drag = Some(
                    Drag::NoteResize {
                        ids: group_ids(&group),
                        orig: group_extents(&group),
                        edge: e,
                        hit_id: id,
                    },
                );
            },
            None => {
                if let Some(at) = find_note(&pat.notes, id) {
                    self.drag = Some(
                        Drag::NoteMove {
                            ids: group_ids(&group),
                            orig: group_places(&group),
                            hit_id: id,
                            last_pitch: Some(pat.notes[at].pitch_index),
                        },
                    );
                }
            },
        }
        assert(self@ =~= old(self)@.note_drag_started(pat@, id, edge, shift));
    }

    /// The pointer moved in a drag of notes, by whole rows and steps from where
    /// the drag started. Gives the pitch to preview.
    pub fn note_dragged(&mut self, pat: &mut Pattern, d_pitch: i32, d_step: i32, spo: i32) -> (r:
        Option<i32>)
        requires
            old(self)@.wf(),
            spo >= 0,
        ensures
            final(pat)@ == old(self)@.note_dragged_pattern(old(pat)@, d_pitch, d_step, spo),
            final(self)@ == old(self)@.note_dragged(final(pat)@),
            r == old(self)@.note_dragged_pitch(final(pat)@),
            final(self)@.wf(),
    {
        let units = snap_to(step_units(d_step), self.snap.units());
        proof {
            lemma_snapped_bound(d_step * UNITS_PER_STEP, self.snap@ as int);
        }
        let drag = self.drag.take();
        match drag {
            Some(Drag::NoteMove { ids, orig, hit_id, last_pitch }) => {
                move_notes(pat, &ids, &orig, d_pitch, units, spo);
                proof {
                    lemma_first_with_id_found(pat@.notes, hit_id);
                }
                let pitch = match find_note(&pat.notes, hit_id) {
                    Some(at) => {
                        let np = pat.notes[at].pitch_index;
                        let same = match last_pitch {
                            Some(lp) => lp == np,
                            None => false,
                        };
                        if same {
                            None
                        } else {
                            Some(np)
                        }
                    },
                    None => None,
                };
                let last_pitch = match pitch {
                    Some(np) => Some(np),
                    None => last_pitch,
                };
                self.drag = Some(Drag::NoteMove { ids, orig, hit_id, last_pitch });
                assert(self@ =~= old(self)@.note_dragged(pat@));
                pitch
            },
            Some(Drag::NoteResize { ids, orig, edge, hit_id }) => {
                resize_notes(pat, &ids, &orig, edge, units);
                proof {
                    lemma_first_with_id_found(pat@.notes, hit_id);
                }
                if let Some(at) = find_note(&pat.notes, hit_id) {
                    self.last_note_len = pat.notes[at].length_steps;
                }
                self.drag = Some(Drag::NoteResize { ids, orig, edge, hit_id });
                assert(self@ =~= old(self)@.note_dragged(pat@));
                None
            },
            other => {
                self.drag = other;
                assert(self@ =~= old(self)@.note_dragged(pat@));
                None
            },
        }
    }

    /// A drag of notes stops.
    pub fn note_drag_stopped(&mut self)
        ensures
            final(self)@ == old(self)@.note_drag_stopped(),
            old(self)@.wf() ==> final(self)@.wf(),
    {
        let over = match &self.drag {
            Some(Drag::NoteMove { .. }) => true,
            Some(Drag::NoteResize { .. }) => true,
            _ => false,
        };
        if over {
            self.drag = None;
        }
        assert(self@ =~= old(self)@.note_drag_stopped());
    }
}

} // verus!
