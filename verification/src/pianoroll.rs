//! The piano-roll editor.
//!
//! The editor works on a `&mut Pattern` (a snapshot owned by the caller) and
//! reports preview and seek requests instead of touching the engine.
use std::collections::HashSet;
use vstd::prelude::*;

use crate::audio::DEFAULT_ROW_H;
use crate::clips::same_pattern;
use crate::grid::{Steps, UNITS_PER_STEP};
use crate::level::DEFAULT_VELOCITY;
use crate::pattern::{clone_notes, Note, Pattern};
#[allow(unused_imports)]
use crate::grid::{max_units, steps_views};
#[allow(unused_imports)]
use crate::pattern::{end_of, note_views, pattern_views, NoteView, PatternView};
#[allow(unused_imports)]
use crate::text::text_views;

verus! {

broadcast use vstd::std_specs::hash::group_hash_axioms;

/// Most undo points that are kept.
pub const HISTORY_LIMIT: usize = 100;

/// The length of a note that is added by a click until another one is chosen:
/// one beat, in steps.
pub const DEFAULT_NOTE_LEN: u64 = 4;

/// A side of a note.
#[derive(Debug, Clone, Copy, PartialEq, Eq, Structural)]
pub enum Edge {
    Left,
    Right,
}

/// How notes are colored.
#[derive(Debug, Clone, Copy, PartialEq, Eq, Structural)]
pub enum Scheme {
    ByPitchClass,
    ByOctave,
    Flat,
}

/// The color schemes, in the order they are offered.
pub open spec fn listed_schemes() -> Seq<Scheme> {
    seq![Scheme::ByPitchClass, Scheme::ByOctave, Scheme::Flat]
}

/// The name of a color scheme.
pub open spec fn scheme_label(s: Scheme) -> Seq<char> {
    match s {
        Scheme::ByPitchClass => "By pitch class"@,
        Scheme::ByOctave => "By octave"@,
        Scheme::Flat => "Flat"@,
    }
}

impl Scheme {
    /// The color schemes to choose from.
    pub fn all() -> (r: &'static [Scheme])
        ensures
            r@ == listed_schemes(),
    {
        let r: &'static [Scheme] = &[Scheme::ByPitchClass, Scheme::ByOctave, Scheme::Flat];
        assert(r@ =~= listed_schemes());
        r
    }

    /// The name shown for the scheme.
    pub fn label(self) -> (r: &'static str)
        ensures
            r@ == scheme_label(self),
    {
        match self {
            Scheme::ByPitchClass => "By pitch class",
            Scheme::ByOctave => "By octave",
            Scheme::Flat => "Flat",
        }
    }
}

/// A place on the screen, in the unit that the caller measures in.
#[derive(Debug, Clone, Copy, PartialEq, Eq, Structural)]
pub struct Point {
    pub x: i32,
    pub y: i32,
}

/// A color in red, green and blue.
#[derive(Debug, Clone, Copy, PartialEq, Eq, Structural)]
pub struct Rgb {
    pub red: u8,
    pub green: u8,
    pub blue: u8,
}

/// Active gesture state (kept between frames).
#[allow(inconsistent_fields)]
#[derive(Debug)]
pub enum Drag {
    /// shift+drag on empty: draw a long note (committed when the drag stops).
    Draw { pitch: i32, start_step: Steps, cur_step: Steps },
    /// ctrl+drag: rubber-band selection (toggles).
    Marquee { start: Point, cur: Point },
    /// dragging a note body: move the selection group.
    NoteMove {
        ids: Vec<u64>,
        /// (pitch, start) per id
        orig: Vec<(i32, Steps)>,
        hit_id: u64,
        last_pitch: Option<i32>,
    },
    /// dragging a note edge: resize the selection group.
    NoteResize {
        ids: Vec<u64>,
        /// (start, length) per id
        orig: Vec<(Steps, Steps)>,
        edge: Edge,
        hit_id: u64,
    },
}

/// The contents of a list of pitches and starts.
pub open spec fn place_views(s: Seq<(i32, Steps)>) -> Seq<(i32, nat)> {
    Seq::new(s.len(), |i: int| (s[i].0, s[i].1@))
}

/// The contents of a list of starts and lengths.
pub open spec fn extent_views(s: Seq<(Steps, Steps)>) -> Seq<(nat, nat)> {
    Seq::new(s.len(), |i: int| (s[i].0@, s[i].1@))
}

/// What a `Drag` is, with times in grid units.
#[allow(inconsistent_fields)]
#[verifier::ext_equal]
pub enum DragView {
    Draw { pitch: i32, start_step: nat, cur_step: nat },
    Marquee { start: Point, cur: Point },
    NoteMove { ids: Seq<u64>, orig: Seq<(i32, nat)>, hit_id: u64, last_pitch: Option<i32> },
    NoteResize { ids: Seq<u64>, orig: Seq<(nat, nat)>, edge: Edge, hit_id: u64 },
}

impl View for Drag {
    type V = DragView;

    open spec fn view(&self) -> DragView {
        match *self {
            Drag::Draw { pitch, start_step, cur_step } => DragView::Draw {
                pitch,
                start_step: start_step@,
                cur_step: cur_step@,
            },
            Drag::Marquee { start, cur } => DragView::Marquee { start, cur },
            Drag::NoteMove { ids, orig, hit_id, last_pitch } => DragView::NoteMove {
                ids: ids@,
                orig: place_views(orig@),
                hit_id,
                last_pitch,
            },
            Drag::NoteResize { ids, orig, edge, hit_id } => DragView::NoteResize {
                ids: ids@,
                orig: extent_views(orig@),
                edge,
                hit_id,
            },
        }
    }
}

/// The contents of an optional gesture.
pub open spec fn drag_view(d: Option<Drag>) -> Option<DragView> {
    match d {
        Some(g) => Some(g@),
        None => None,
    }
}

/// All persistent editor state (kept between frames).
#[derive(Debug)]
pub struct EditorState {
    pub selection: HashSet<u64>,
    pub drag: Option<Drag>,
    /// The length of a note that is added by a click.
    pub last_note_len: Steps,
    pub scheme: Scheme,
    /// Snap distance.
    pub snap: Steps,
    /// User-configurable base note names (space/comma separated), fed to the
    /// auto-namer.
    pub names: String,
    pub clipboard: Vec<Note>,
    pub clips: Vec<Pattern>,
    pub clip_names: Vec<String>,
    pub active_clip: usize,
    /// The pitch class of the root.
    pub tonic: i32,
    pub last_velocity: i32,
    pub custom_colors: Vec<Rgb>,
    /// Height of a row, in thousandths of a pixel.
    pub row_h: u32,
    /// Whether an erase stroke is under way.
    pub erasing: bool,
    /// Undo points, oldest first.
    pub history: Vec<Pattern>,
    /// The undo point that the editor stands at.
    pub history_pos: usize,
}

/// What an `EditorState` is.
#[verifier::ext_equal]
pub struct EditorView {
    pub selection: Set<u64>,
    pub drag: Option<DragView>,
    pub last_note_len: nat,
    pub scheme: Scheme,
    pub snap: nat,
    pub names: Seq<char>,
    pub clipboard: Seq<NoteView>,
    pub clips: Seq<PatternView>,
    pub clip_names: Seq<Seq<char>>,
    pub active_clip: usize,
    pub tonic: i32,
    pub last_velocity: i32,
    pub custom_colors: Seq<Rgb>,
    pub row_h: u32,
    pub erasing: bool,
    pub history: Seq<PatternView>,
    pub history_pos: usize,
}

impl View for EditorState {
    type V = EditorView;

    open spec fn view(&self) -> EditorView {
        EditorView {
            selection: self.selection@,
            drag: drag_view(self.drag),
            last_note_len: self.last_note_len@,
            scheme: self.scheme,
            snap: self.snap@,
            names: self.names@,
            clipboard: note_views(self.clipboard@),
            clips: pattern_views(self.clips@),
            clip_names: text_views(self.clip_names@),
            active_clip: self.active_clip,
            tonic: self.tonic,
            last_velocity: self.last_velocity,
            custom_colors: self.custom_colors@,
            row_h: self.row_h,
            erasing: self.erasing,
            history: pattern_views(self.history@),
            history_pos: self.history_pos,
        }
    }
}

// ---------------------------------------------------------------------------
// Undo and redo
// ---------------------------------------------------------------------------

impl EditorView {
    /// The undo position is one of the recorded points, and not too many points
    /// are kept.
    pub open spec fn wf(self) -> bool {
        &&& self.history.len() <= HISTORY_LIMIT
        &&& self.history_pos < self.history.len() || self.history_pos == 0
    }

    /// A new editor.
    pub open spec fn fresh() -> EditorView {
        EditorView {
            selection: Set::empty(),
            drag: None,
            last_note_len: (DEFAULT_NOTE_LEN * UNITS_PER_STEP) as nat,
            scheme: Scheme::ByPitchClass,
            snap: UNITS_PER_STEP as nat,
            names: "C C# D D# E F F# G G# A A# B"@,
            clipboard: Seq::empty(),
            clips: Seq::empty(),
            clip_names: Seq::empty(),
            active_clip: 0,
            tonic: 0,
            last_velocity: DEFAULT_VELOCITY,
            custom_colors: Seq::empty(),
            row_h: DEFAULT_ROW_H,
            erasing: false,
            history: Seq::empty(),
            history_pos: 0,
        }
    }

    /// `p` recorded as an undo point: what could be redone is forgotten, and
    /// the oldest point goes when there are too many.
    pub open spec fn begin_edit(self, p: PatternView) -> EditorView {
        let kept = if self.history_pos + 1 < self.history.len() {
            self.history.take(self.history_pos + 1)
        } else {
            self.history
        };
        let longer = kept.push(p);
        let history = if longer.len() > HISTORY_LIMIT {
            longer.drop_first()
        } else {
            longer
        };
        EditorView { history, history_pos: (history.len() - 1) as usize, ..self }
    }

    /// The editor stands at the newest point, and `p` was edited since.
    pub open spec fn edited_since(self, p: PatternView) -> bool {
        &&& self.history_pos + 1 == self.history.len()
        &&& self.history[self.history_pos as int] != p
    }

    /// `p` stored behind the newest point, at which the editor stays; the oldest
    /// point goes when there are too many.
    pub open spec fn with_newer(self, p: PatternView) -> EditorView {
        let longer = self.history.push(p);
        let history = if longer.len() > HISTORY_LIMIT {
            longer.drop_first()
        } else {
            longer
        };
        EditorView { history, history_pos: (history.len() - 2) as usize, ..self }
    }

    /// Whether there is a point to go back to from `p`.
    pub open spec fn can_undo(self, p: PatternView) -> bool {
        self.edited_since(p) || self.history_pos > 0
    }

    /// Whether there is a point to go forward to.
    pub open spec fn can_redo(self) -> bool {
        self.history_pos + 1 < self.history.len()
    }

    /// At another undo point, with nothing selected.
    pub open spec fn at_point(self, i: int) -> EditorView {
        EditorView { history_pos: i as usize, selection: Set::empty(), ..self }
    }

    /// One point back from `p`: to the newest point where `p` was edited since
    /// then, which keeps `p` for redo; otherwise to the point before.
    pub open spec fn undo(self, p: PatternView) -> EditorView {
        if self.edited_since(p) {
            EditorView { selection: Set::empty(), ..self.with_newer(p) }
        } else if self.history_pos > 0 {
            self.at_point(self.history_pos - 1)
        } else {
            self
        }
    }

    /// The pattern one point back from `p`.
    pub open spec fn undo_pattern(self, p: PatternView) -> PatternView {
        if self.edited_since(p) {
            self.history[self.history_pos as int]
        } else if self.history_pos > 0 {
            self.history[self.history_pos - 1]
        } else {
            p
        }
    }

    /// One point forward.
    pub open spec fn redo(self) -> EditorView {
        if self.can_redo() {
            self.at_point(self.history_pos + 1)
        } else {
            self
        }
    }

    /// The pattern one point forward.
    pub open spec fn redo_pattern(self, p: PatternView) -> PatternView {
        if self.can_redo() {
            self.history[self.history_pos + 1]
        } else {
            p
        }
    }
}

impl Default for EditorState {
    fn default() -> (r: EditorState)
        ensures
            r@ == EditorView::fresh(),
            r@.wf(),
    {
        let r = EditorState {
            selection: HashSet::new(),
            drag: None,
            last_note_len: Steps::of(DEFAULT_NOTE_LEN),
            scheme: Scheme::ByPitchClass,
            snap: Steps::of(1),
            names: String::from_str("C C# D D# E F F# G G# A A# B"),
            clipboard: Vec::new(),
            clips: Vec::new(),
            clip_names: Vec::new(),
            active_clip: 0,
            tonic: 0,
            last_velocity: DEFAULT_VELOCITY,
            custom_colors: Vec::new(),
            row_h: DEFAULT_ROW_H,
            erasing: false,
            history: Vec::new(),
            history_pos: 0,
        };
        assert(r@ =~= EditorView::fresh());
        r
    }
}

impl EditorState {
    /// Record the current pattern as an undo point (call *before* an edit).
    pub fn begin_edit(&mut self, pat: &Pattern)
        requires
            old(self)@.wf(),
        ensures
            final(self)@ == old(self)@.begin_edit(pat@),
            final(self)@.wf(),
    {
        let ghost before = self@;
        self.history.truncate(self.history_pos + 1);
        let ghost kept = if before.history_pos + 1 < before.history.len() {
            before.history.take(before.history_pos + 1)
        } else {
            before.history
        };
        assert(pattern_views(self.history@) =~= kept);
        self.history.push(pat.clone());
        assert(pattern_views(self.history@) =~= kept.push(pat@));
        if self.history.len() > HISTORY_LIMIT {
            let _ = self.history.remove(0);
            assert(pattern_views(self.history@) =~= kept.push(pat@).drop_first());
        }
        self.history_pos = self.history.len() - 1;
        assert(self@ =~= before.begin_edit(pat@));
    }

    /// Take back the last edit: go back to the undo point that was recorded
    /// before it. The edited pattern is kept for redo.
    pub fn undo(&mut self, pat: &mut Pattern)
        requires
            old(self)@.wf(),
        ensures
            final(self)@ == old(self)@.undo(old(pat)@),
            final(pat)@ == old(self)@.undo_pattern(old(pat)@),
            final(self)@.wf(),
    {
        let ghost before = self@;
        assert(before.history.len() == self.history.len());
        if self.history_pos + 1 == self.history.len() && !same_pattern(
            &self.history[self.history_pos],
            pat,
        ) {
            assert(before.history[before.history_pos as int] == self.history[self.history_pos as int]@);
            self.history.push(pat.clone());
            assert(pattern_views(self.history@) =~= before.history.push(pat@));
            if self.history.len() > HISTORY_LIMIT {
                let _ = self.history.remove(0);
                assert(pattern_views(self.history@) =~= before.history.push(pat@).drop_first());
            }
            self.history_pos = self.history.len() - 2;
            *pat = self.history[self.history_pos].clone();
            assert(pat@ == pattern_views(self.history@)[self.history_pos as int]);
            self.selection.clear();
            assert(self@ =~= before.undo(old(pat)@));
        } else if self.history_pos > 0 {
            self.history_pos = self.history_pos - 1;
            *pat = self.history[self.history_pos].clone();
            self.selection.clear();
            assert(self@ =~= before.undo(old(pat)@));
        }
    }

    /// Go forward to the next undo point.
    pub fn redo(&mut self, pat: &mut Pattern)
        requires
            old(self)@.wf(),
        ensures
            final(self)@ == old(self)@.redo(),
            final(pat)@ == old(self)@.redo_pattern(old(pat)@),
            final(self)@.wf(),
    {
        if self.history_pos + 1 < self.history.len() {
            self.history_pos = self.history_pos + 1;
            *pat = self.history[self.history_pos].clone();
            self.selection.clear();
            assert(self@ =~= old(self)@.redo());
        }
    }
}

// ---------------------------------------------------------------------------
// The clipboard and the selection
// ---------------------------------------------------------------------------

/// The notes of a selection, in their order.
pub open spec fn selected_of(notes: Seq<NoteView>, selection: Set<u64>) -> Seq<NoteView> {
    notes.filter(|n: NoteView| selection.contains(n.id))
}

/// The notes outside a selection, in their order.
pub open spec fn unselected_of(notes: Seq<NoteView>, selection: Set<u64>) -> Seq<NoteView> {
    notes.filter(|n: NoteView| !selection.contains(n.id))
}

/// The pattern with a copy of each note, at its new start.
pub open spec fn plus_copies(p: PatternView, notes: Seq<NoteView>, starts: Seq<nat>) -> PatternView
    decreases notes.len(),
{
    if notes.len() == 0 {
        p
    } else {
        plus_copies(p, notes.drop_last(), starts).duplicate(
            notes.last(),
            starts[notes.len() - 1],
            notes.last().length_steps,
        )
    }
}

/// The identities that the next `n` notes of a pattern get.
pub open spec fn next_ids(p: PatternView, n: int) -> Set<u64> {
    Set::new(|id: u64| p.next_id <= id < p.next_id + n)
}

/// The earliest start among the notes, zero for none.
pub open spec fn first_start(notes: Seq<NoteView>) -> nat
    decreases notes.len(),
{
    if notes.len() == 0 {
        0
    } else if notes.len() == 1 {
        notes[0].start_step
    } else {
        let rest = first_start(notes.drop_last());
        if notes.last().start_step < rest {
            notes.last().start_step
        } else {
            rest
        }
    }
}

/// The start of the last step of a clip.
pub open spec fn last_step_start(total_steps: usize) -> nat {
    let u = (total_steps - 1) * UNITS_PER_STEP;
    if u < 0 {
        0
    } else {
        u as nat
    }
}

/// `x` moved into the range from 0 to `high`.
pub open spec fn into_range(x: int, high: int) -> nat {
    if x > high {
        if high < 0 {
            0
        } else {
            high as nat
        }
    } else if x < 0 {
        0
    } else {
        x as nat
    }
}

/// Where the notes of the clipboard go when its first note goes to `ph`.
pub open spec fn paste_starts(clip: Seq<NoteView>, ph: nat, total_steps: usize) -> Seq<nat> {
    Seq::new(
        clip.len(),
        |i: int|
            into_range(
                clip[i].start_step + (ph - first_start(clip)),
                last_step_start(total_steps) as int,
            ),
    )
}

/// Where the copies of notes go when each follows the note it copies.
pub open spec fn following_starts(notes: Seq<NoteView>, total_steps: usize) -> Seq<nat> {
    Seq::new(
        notes.len(),
        |i: int| into_range(end_of(notes[i]), last_step_start(total_steps) as int),
    )
}

/// Where the copies of notes go when each lies on the note it copies.
pub open spec fn same_starts(notes: Seq<NoteView>) -> Seq<nat> {
    Seq::new(notes.len(), |i: int| notes[i].start_step)
}

impl EditorView {
    /// No note is selected.
    pub open spec fn none_selected(self) -> bool {
        self.selection == Set::<u64>::empty()
    }

    /// The selected notes in the clipboard.
    pub open spec fn copy_selected(self, p: PatternView) -> EditorView {
        EditorView { clipboard: selected_of(p.notes, self.selection), ..self }
    }

    /// The copies of `n` notes selected, and nothing else.
    pub open spec fn select_copies(self, p: PatternView, n: int) -> EditorView {
        EditorView { selection: next_ids(p, n), ..self }
    }

    /// After pasting: only the pasted notes are selected.
    pub open spec fn paste(self, p: PatternView) -> EditorView {
        if self.clipboard.len() == 0 {
            self
        } else {
            self.begin_edit(p).select_copies(p, self.clipboard.len() as int)
        }
    }

    /// The pattern after pasting at `ph`.
    pub open spec fn paste_pattern(self, p: PatternView, ph: nat) -> PatternView {
        plus_copies(p, self.clipboard, paste_starts(self.clipboard, ph, p.total_steps))
    }

    /// After duplicating: only the copies are selected.
    pub open spec fn duplicate_selected(self, p: PatternView) -> EditorView {
        if self.none_selected() {
            self
        } else {
            self.begin_edit(p).select_copies(p, selected_of(p.notes, self.selection).len() as int)
        }
    }

    /// The pattern after duplicating.
    pub open spec fn duplicate_pattern(self, p: PatternView) -> PatternView {
        if self.none_selected() {
            p
        } else {
            let notes = selected_of(p.notes, self.selection);
            plus_copies(p, notes, following_starts(notes, p.total_steps))
        }
    }

    /// After deleting the selected notes.
    pub open spec fn delete_selected(self, p: PatternView) -> EditorView {
        if self.none_selected() {
            self
        } else {
            EditorView { selection: Set::empty(), ..self.begin_edit(p) }
        }
    }

    /// The pattern after deleting the selected notes.
    pub open spec fn delete_pattern(self, p: PatternView) -> PatternView {
        if self.none_selected() {
            p
        } else {
            PatternView { notes: unselected_of(p.notes, self.selection), ..p }
        }
    }

    /// All notes selected.
    pub open spec fn select_all(self, p: PatternView) -> EditorView {
        EditorView {
            selection: Set::new(|id: u64| exists|i: int| 0 <= i < p.notes.len() && (#[trigger] p.notes[i]).id == id),
            ..self
        }
    }
}

/// The selected notes of a pattern, in their order.
pub(crate) fn pick_selected(notes: &Vec<Note>, selection: &HashSet<u64>) -> (r: Vec<Note>)
    ensures
        note_views(r@) == selected_of(note_views(notes@), selection@),
{
    let ghost all = note_views(notes@);
    let mut r: Vec<Note> = Vec::new();
    proof {
        reveal(Seq::filter);
        assert(note_views(r@) =~= selected_of(all.take(0), selection@));
    }
    for i in 0..notes.len()
        invariant
            all == note_views(notes@),
            note_views(r@) == selected_of(all.take(i as int), selection@),
    {
        let ghost before = note_views(r@);
        proof {
            reveal(Seq::filter);
            assert(all.take(i + 1).drop_last() =~= all.take(i as int));
        }
        if selection.contains(&notes[i].id) {
            r.push(notes[i].clone());
            assert(note_views(r@) =~= before.push(all[i as int]));
        }
    }
    assert(all.take(all.len() as int) =~= all);
    r
}

/// The notes of a pattern outside a selection, in their order.
fn drop_selected(notes: &Vec<Note>, selection: &HashSet<u64>) -> (r: Vec<Note>)
    ensures
        note_views(r@) == unselected_of(note_views(notes@), selection@),
{
    let ghost all = note_views(notes@);
    let mut r: Vec<Note> = Vec::new();
    proof {
        reveal(Seq::filter);
        assert(note_views(r@) =~= unselected_of(all.take(0), selection@));
    }
    for i in 0..notes.len()
        invariant
            all == note_views(notes@),
            note_views(r@) == unselected_of(all.take(i as int), selection@),
    {
        let ghost before = note_views(r@);
        proof {
            reveal(Seq::filter);
            assert(all.take(i + 1).drop_last() =~= all.take(i as int));
        }
        if !selection.contains(&notes[i].id) {
            r.push(notes[i].clone());
            assert(note_views(r@) =~= before.push(all[i as int]));
        }
    }
    assert(all.take(all.len() as int) =~= all);
    r
}

/// Adds a copy of each note at its new start, and gives the identities of the
/// copies.
pub(crate) fn add_copies(pat: &mut Pattern, notes: &Vec<Note>, starts: &Vec<Steps>) -> (r:
    HashSet<u64>)
    requires
        starts.len() == notes.len(),
        old(pat).next_id + notes.len() <= u64::MAX,
    ensures
        final(pat)@ == plus_copies(old(pat)@, note_views(notes@), steps_views(starts@)),
        r@ == next_ids(old(pat)@, notes.len() as int),
{
    let ghost all = note_views(notes@);
    let ghost before = pat@;
    let mut ids: HashSet<u64> = HashSet::new();
    assert(ids@ =~= next_ids(before, 0));
    for i in 0..notes.len()
        invariant
            all == note_views(notes@),
            before == old(pat)@,
            starts.len() == notes.len(),
            before.next_id + notes.len() <= u64::MAX,
            pat.next_id == before.next_id + i,
            pat@ == plus_copies(before, all.take(i as int), steps_views(starts@)),
            ids@ == next_ids(before, i as int),
    {
        assert(all.take(i + 1).drop_last() =~= all.take(i as int));
        assert(all.take(i + 1).last() == notes[i as int]@);
        let id = pat.duplicate(&notes[i], starts[i], notes[i].length_steps);
        ids.insert(id);
        assert(ids@ =~= next_ids(before, i + 1));
    }
    assert(all.take(all.len() as int) =~= all);
    ids
}

/// The earliest start among the notes, in units.
fn earliest(notes: &Vec<Note>) -> (r: u128)
    ensures
        r == first_start(note_views(notes@)),
        r <= 0x14c2_f000_0000_0000_0000_0000_0000_0000,
{
    let ghost all = note_views(notes@);
    if notes.len() == 0 {
        return 0;
    }
    let mut least: u128 = notes[0].start_step.units();
    for i in 1..notes.len()
        invariant
            all == note_views(notes@),
            notes.len() > 0,
            least == first_start(all.take(i as int)),
            least <= 0x14c2_f000_0000_0000_0000_0000_0000_0000,
    {
        assert(all.take(i + 1).drop_last() =~= all.take(i as int));
        assert(all.take(i + 1).last() == notes[i as int]@);
        let start: u128 = notes[i].start_step.units();
        if start < least {
            least = start;
        }
    }
    assert(all.take(all.len() as int) =~= all);
    least
}

/// The start of the last step of a clip, in units.
pub(crate) fn start_of_last_step(total_steps: usize) -> (r: i128)
    ensures
        r == last_step_start(total_steps),
        0 <= r <= 0x14c2_f000_0000_0000_0000_0000_0000_0000,
        r <= max_units(),
{
    let steps: i128 = if total_steps < 1 {
        0
    } else {
        total_steps as i128 - 1
    };
    assert(steps * 1_496_020_807_977_696_000 <= 0x14c2_f000_0000_0000_0000_0000_0000_0000);
    steps * UNITS_PER_STEP as i128
}

/// Moves a position, in units, into the range from 0 to `high`.
pub(crate) fn clamp_position(x: i128, high: i128) -> (r: Steps)
    requires
        high <= max_units(),
    ensures
        r@ == into_range(x as int, high as int),
{
    let y: i128 = if x > high {
        high
    } else {
        x
    };
    if y < 0 {
        Steps::of(0)
    } else {
        Steps::from_units(y as u128)
    }
}

impl EditorState {
    /// Copy currently-selected notes into the internal clipboard.
    pub fn copy_selected(&mut self, pat: &Pattern)
        ensures
            final(self)@ == old(self)@.copy_selected(pat@),
            old(self)@.wf() ==> final(self)@.wf(),
    {
        self.clipboard = pick_selected(&pat.notes, &self.selection);
        assert(self@ =~= old(self)@.copy_selected(pat@));
    }

    /// Paste the clipboard so its first note starts at the playhead.
    pub fn paste_at_playhead(&mut self, pat: &mut Pattern, ph: Steps)
        requires
            old(self)@.wf(),
            old(pat)@.next_id + old(self)@.clipboard.len() <= u64::MAX,
        ensures
            final(self)@ == old(self)@.paste(old(pat)@),
            final(pat)@ == old(self)@.paste_pattern(old(pat)@, ph@),
            final(self)@.wf(),
    {
        if self.clipboard.len() == 0 {
            return ;
        }
        let ghost before = self@;
        self.begin_edit(pat);
        let clip = clone_notes(&self.clipboard);
        assert(self@.clipboard == before.clipboard);
        let ghost views = note_views(clip@);
        let off: i128 = ph.units() as i128 - earliest(&clip) as i128;
        let last = start_of_last_step(pat.total_steps);
        let mut starts: Vec<Steps> = Vec::new();
        for i in 0..clip.len()
            invariant
                views == note_views(clip@),
                off == ph@ - first_start(views),
                -0x14c2_f000_0000_0000_0000_0000_0000_0000 <= off
                    <= 0x14c2_f000_0000_0000_0000_0000_0000_0000,
                last == last_step_start(pat.total_steps),
                last <= max_units(),
                starts.len() == i,
                forall|j: int|
                    0 <= j < i ==> (#[trigger] starts[j])@ == paste_starts(
                        views,
                        ph@,
                        pat.total_steps,
                    )[j],
        {
            assert(views[i as int] == clip[i as int]@);
            starts.push(clamp_position(clip[i].start_step.units() as i128 + off, last));
        }
        assert(steps_views(starts@) =~= paste_starts(views, ph@, pat.total_steps));
        self.selection = add_copies(pat, &clip, &starts);
        assert(self@ =~= before.paste(old(pat)@));
    }

    /// Duplicate the selection, offset right by each note's length; selects
    /// only the copies.
    pub fn duplicate_selected(&mut self, pat: &mut Pattern)
        requires
            old(self)@.wf(),
            !old(self)@.none_selected() ==> old(pat)@.next_id + old(pat)@.notes.len() <= u64::MAX,
        ensures
            final(self)@ == old(self)@.duplicate_selected(old(pat)@),
            final(pat)@ == old(self)@.duplicate_pattern(old(pat)@),
            final(self)@.wf(),
    {
        if self.selection.is_empty() {
            return ;
        }
        let ghost before = self@;
        self.begin_edit(pat);
        let selected = pick_selected(&pat.notes, &self.selection);
        let ghost views = note_views(selected@);
        proof {
            pat@.notes.lemma_filter_len(|n: NoteView| before.selection.contains(n.id));
        }
        let last = start_of_last_step(pat.total_steps);
        let mut starts: Vec<Steps> = Vec::new();
        for i in 0..selected.len()
            invariant
                views == note_views(selected@),
                last == last_step_start(pat.total_steps),
                last <= max_units(),
                starts.len() == i,
                forall|j: int|
                    0 <= j < i ==> (#[trigger] starts[j])@ == following_starts(
                        views,
                        pat.total_steps,
                    )[j],
        {
            assert(views[i as int] == selected[i as int]@);
            let end: i128 = selected[i].start_step.units() as i128
                + selected[i].length_steps.units() as i128;
            starts.push(clamp_position(end, last));
        }
        assert(steps_views(starts@) =~= following_starts(views, pat.total_steps));
        self.selection = add_copies(pat, &selected, &starts);
        assert(self@ =~= before.duplicate_selected(old(pat)@));
    }

    /// Remove the selected notes.
    pub fn delete_selected(&mut self, pat: &mut Pattern)
        requires
            old(self)@.wf(),
        ensures
            final(self)@ == old(self)@.delete_selected(old(pat)@),
            final(pat)@ == old(self)@.delete_pattern(old(pat)@),
            final(self)@.wf(),
    {
        if self.selection.is_empty() {
            return ;
        }
        self.begin_edit(pat);
        pat.notes = drop_selected(&pat.notes, &self.selection);
        self.selection.clear();
        assert(self@ =~= old(self)@.delete_selected(old(pat)@));
        assert(pat@ =~= old(self)@.delete_pattern(old(pat)@));
    }

    /// Copy the selected notes, then remove them.
    pub fn cut_selected(&mut self, pat: &mut Pattern)
        requires
            old(self)@.wf(),
        ensures
            final(self)@ == old(self)@.copy_selected(old(pat)@).delete_selected(old(pat)@),
            final(pat)@ == old(self)@.delete_pattern(old(pat)@),
            final(self)@.wf(),
    {
        self.copy_selected(pat);
        self.delete_selected(pat);
    }

    /// Select all notes.
    pub fn select_all(&mut self, pat: &Pattern)
        ensures
            final(self)@ == old(self)@.select_all(pat@),
            old(self)@.wf() ==> final(self)@.wf(),
    {
        let mut ids: HashSet<u64> = HashSet::new();
        let ghost notes = pat@.notes;
        let ghost upto = |k: int|
            Set::new(
                |id: u64| exists|i: int| 0 <= i < k && (#[trigger] notes[i]).id == id,
            );
        assert(ids@ =~= upto(0));
        for i in 0..pat.notes.len()
            invariant
                notes == pat@.notes,
                forall|id: u64| #[trigger]
                    ids@.contains(id) <==> exists|j: int| 0 <= j < i && (#[trigger] notes[j]).id == id,
        {
            let ghost prior = ids@;
            ids.insert(pat.notes[i].id);
            assert(notes[i as int].id == pat.notes[i as int].id);
            assert forall|id: u64| #[trigger] ids@.contains(id) <==> exists|j: int|
                0 <= j < i + 1 && (#[trigger] notes[j]).id == id by {
                if prior.contains(id) {
                    let j = choose|j: int| 0 <= j < i && (#[trigger] notes[j]).id == id;
                    assert(0 <= j < i + 1 && notes[j].id == id);
                }
            }
        }
        self.selection = ids;
        assert(self@.selection =~= old(self)@.select_all(pat@).selection);
        assert(self@ =~= old(self)@.select_all(pat@));
    }
}

} // verus!
