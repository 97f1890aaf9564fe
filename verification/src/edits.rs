//! Edits of the pattern as a whole or of its selected notes, and the keyboard
//! shortcuts that call them.
use vstd::prelude::*;

use crate::gesture::pitch_clamp;
use crate::grid::Steps;
use crate::level::DEFAULT_VELOCITY;
use crate::pattern::{find_note, Pattern};
use crate::pianoroll::{EditorState, Rgb};
#[allow(unused_imports)]
use crate::gesture::{as_pitch, reachable_pitch};
#[allow(unused_imports)]
use crate::pattern::{
    first_with_id, lemma_first_with_id, lemma_first_with_id_found, note_views, NoteView, PatternView,
};
#[allow(unused_imports)]
use crate::pianoroll::{selected_of, EditorView};

verus! {

broadcast use vstd::std_specs::hash::group_hash_axioms;

/// Most pitch classes that have a color of their own.
pub const MAX_COLORS: usize = 24;

/// Note `i` is the first one with its identity.
pub open spec fn leads(notes: Seq<NoteView>, i: int) -> bool {
    first_with_id(notes, notes[i].id) == i
}

/// The pattern with the velocity of the selected notes set.
pub open spec fn with_velocity(p: PatternView, selection: Set<u64>, velocity: i32) -> PatternView {
    PatternView {
        notes: Seq::new(
            p.notes.len(),
            |i: int|
                if selection.contains(p.notes[i].id) && leads(p.notes, i) {
                    NoteView { velocity, ..p.notes[i] }
                } else {
                    p.notes[i]
                },
        ),
        ..p
    }
}

/// The pattern with the label of the selected notes set.
pub open spec fn with_label(p: PatternView, selection: Set<u64>, label: Seq<char>) -> PatternView {
    PatternView {
        notes: Seq::new(
            p.notes.len(),
            |i: int|
                if selection.contains(p.notes[i].id) && leads(p.notes, i) {
                    NoteView { label, ..p.notes[i] }
                } else {
                    p.notes[i]
                },
        ),
        ..p
    }
}

/// The pattern with the selected notes shifted by a number of rows, inside the
/// range that a drag can reach.
pub open spec fn transposed(p: PatternView, selection: Set<u64>, delta: int, spo: int) -> PatternView {
    PatternView {
        notes: Seq::new(
            p.notes.len(),
            |i: int|
                if selection.contains(p.notes[i].id) && leads(p.notes, i) {
                    NoteView {
                        pitch_index: as_pitch(
                            reachable_pitch(p.notes[i].pitch_index + delta, spo),
                        ),
                        ..p.notes[i]
                    }
                } else {
                    p.notes[i]
                },
        ),
        ..p
    }
}

pub proof fn lemma_same_ids(a: Seq<NoteView>, b: Seq<NoteView>, id: u64)
    requires
        a.len() == b.len(),
        forall|i: int| 0 <= i < a.len() ==> (#[trigger] a[i]).id == b[i].id,
    ensures
        first_with_id(a, id) == first_with_id(b, id),
{
    lemma_first_with_id_found(a, id);
    let f = first_with_id(a, id);
    assert forall|j: int| 0 <= j < f implies (#[trigger] b[j]).id != id by {
        assert(a[j].id != id);
    }
    if f < a.len() {
        assert(a[f].id == b[f].id);
    }
    lemma_first_with_id(b, id, f);
}

/// Whether note `i` is selected and the first one with its identity.
fn is_target(pat: &Pattern, selection: &std::collections::HashSet<u64>, i: usize) -> (r: bool)
    requires
        i < pat.notes.len(),
    ensures
        r == (selection@.contains(pat@.notes[i as int].id) && leads(pat@.notes, i as int)),
{
    let id = pat.notes[i].id;
    if !selection.contains(&id) {
        return false;
    }
    match find_note(&pat.notes, id) {
        Some(k) => k == i,
        None => false,
    }
}

/// The first of the selected notes, if there is one.
pub open spec fn first_selected(notes: Seq<NoteView>, selection: Set<u64>) -> Option<NoteView> {
    let chosen = selected_of(notes, selection);
    if chosen.len() > 0 {
        Some(chosen[0])
    } else {
        None
    }
}

/// The pattern with another number of beats in a bar, at least one.
pub open spec fn with_beats(p: PatternView, beats: i32) -> PatternView {
    PatternView {
        beats_per_bar: if beats < 1 {
            1
        } else {
            beats as u32
        },
        ..p
    }
}

impl EditorView {
    /// After shifting the selected notes of `p`: an undo point, where some are.
    pub open spec fn shifted(self, p: PatternView) -> EditorView {
        if self.none_selected() {
            self
        } else {
            self.begin_edit(p)
        }
    }

    /// The pattern after shifting its selected notes.
    pub open spec fn shifted_pattern(self, p: PatternView, delta: int, spo: int) -> PatternView {
        if self.none_selected() {
            p
        } else {
            transposed(p, self.selection, delta, spo)
        }
    }

    /// Nothing selected.
    pub open spec fn deselected(self) -> EditorView {
        EditorView { selection: Set::empty(), ..self }
    }
}

impl EditorState {
    /// Set the velocity of the selected notes.
    pub fn set_selected_velocity(&mut self, pat: &mut Pattern, velocity: i32)
        ensures
            final(self)@ == (EditorView { last_velocity: velocity, ..old(self)@ }),
            final(pat)@ == with_velocity(old(pat)@, old(self)@.selection, velocity),
            old(self)@.wf() ==> final(self)@.wf(),
    {
        let ghost before = pat@;
        let ghost target = with_velocity(before, self@.selection, velocity);
        let count = pat.notes.len();
        for i in 0..count
            invariant
                count == pat.notes.len(),
                before.notes.len() == count,
                self@ == old(self)@,
                target == with_velocity(before, self@.selection, velocity),
                pat@ == (PatternView { notes: pat@.notes, ..before }),
                forall|j: int| 0 <= j < i ==> #[trigger] pat@.notes[j] == target.notes[j],
                forall|j: int| i <= j < count ==> #[trigger] pat@.notes[j] == before.notes[j],
        {
            let ghost prior = pat@.notes;
            proof {
                assert(prior[i as int] == before.notes[i as int]);
                assert forall|j: int| 0 <= j < count implies (#[trigger] prior[j]).id
                    == before.notes[j].id by {
                    if j < i {
                        assert(prior[j] == target.notes[j]);
                    }
                }
                lemma_same_ids(prior, before.notes, before.notes[i as int].id);
            }
            if is_target(pat, &self.selection, i) {
                pat.notes[i].velocity = velocity;
            }
            assert(pat@.notes[i as int] == target.notes[i as int]);
            assert forall|j: int| 0 <= j < count && j != i implies #[trigger] pat@.notes[j]
                == prior[j] by {}
        }
        assert(pat@.notes =~= target.notes);
        self.last_velocity = velocity;
        assert(self@ =~= EditorView { last_velocity: velocity, ..old(self)@ });
    }

    /// Set the label of the selected notes; an empty one shows the note name
    /// again.
    pub fn set_selected_label(&self, pat: &mut Pattern, label: &String)
        ensures
            final(pat)@ == with_label(old(pat)@, self@.selection, label@),
    {
        let ghost before = pat@;
        let ghost target = with_label(before, self@.selection, label@);
        let count = pat.notes.len();
        for i in 0..count
            invariant
                count == pat.notes.len(),
                before.notes.len() == count,
                target == with_label(before, self@.selection, label@),
                pat@ == (PatternView { notes: pat@.notes, ..before }),
                forall|j: int| 0 <= j < i ==> #[trigger] pat@.notes[j] == target.notes[j],
                forall|j: int| i <= j < count ==> #[trigger] pat@.notes[j] == before.notes[j],
        {
            let ghost prior = pat@.notes;
            proof {
                assert(prior[i as int] == before.notes[i as int]);
                assert forall|j: int| 0 <= j < count implies (#[trigger] prior[j]).id
                    == before.notes[j].id by {
                    if j < i {
                        assert(prior[j] == target.notes[j]);
                    }
                }
                lemma_same_ids(prior, before.notes, before.notes[i as int].id);
            }
            if is_target(pat, &self.selection, i) {
                pat.notes[i].label = label.clone();
            }
            assert(pat@.notes[i as int] == target.notes[i as int]);
            assert forall|j: int| 0 <= j < count && j != i implies #[trigger] pat@.notes[j]
                == prior[j] by {}
        }
        assert(pat@.notes =~= target.notes);
    }

    /// Take the label off the selected notes, as an edit that can be undone.
    pub fn clear_selected_labels(&mut self, pat: &mut Pattern)
        requires
            old(self)@.wf(),
        ensures
            final(self)@ == old(self)@.begin_edit(old(pat)@),
            final(pat)@ == with_label(old(pat)@, old(self)@.selection, Seq::empty()),
            final(self)@.wf(),
    {
        self.begin_edit(pat);
        let none = String::new();
        assert(none@ =~= Seq::<char>::empty());
        self.set_selected_label(pat, &none);
    }

    /// Shift the selected notes by a number of rows.
    pub fn transpose(&mut self, pat: &mut Pattern, delta: i32, spo: i32)
        requires
            old(self)@.wf(),
            spo >= 0,
        ensures
            final(self)@ == old(self)@.shifted(old(pat)@),
            final(pat)@ == old(self)@.shifted_pattern(old(pat)@, delta as int, spo as int),
            final(self)@ == if old(self)@.none_selected() {
                old(self)@
            } else {
                old(self)@.begin_edit(old(pat)@)
            },
            final(pat)@ == if old(self)@.none_selected() {
                old(pat)@
            } else {
                transposed(old(pat)@, old(self)@.selection, delta as int, spo as int)
            },
            final(self)@.wf(),
    {
        if self.selection.is_empty() {
            return ;
        }
        let ghost before = pat@;
        self.begin_edit(pat);
        let ghost target = transposed(before, self@.selection, delta as int, spo as int);
        let count = pat.notes.len();
        for i in 0..count
            invariant
                spo >= 0,
                count == pat.notes.len(),
                before.notes.len() == count,
                target == transposed(before, self@.selection, delta as int, spo as int),
                pat@ == (PatternView { notes: pat@.notes, ..before }),
                forall|j: int| 0 <= j < i ==> #[trigger] pat@.notes[j] == target.notes[j],
                forall|j: int| i <= j < count ==> #[trigger] pat@.notes[j] == before.notes[j],
        {
            let ghost prior = pat@.notes;
            proof {
                assert(prior[i as int] == before.notes[i as int]);
                assert forall|j: int| 0 <= j < count implies (#[trigger] prior[j]).id
                    == before.notes[j].id by {
                    if j < i {
                        assert(prior[j] == target.notes[j]);
                    }
                }
                lemma_same_ids(prior, before.notes, before.notes[i as int].id);
            }
            if is_target(pat, &self.selection, i) {
                let pitch: i64 = pat.notes[i].pitch_index as i64 + delta as i64;
                pat.notes[i].pitch_index = pitch_clamp(pitch, spo);
            }
            assert(pat@.notes[i as int] == target.notes[i as int]);
            assert forall|j: int| 0 <= j < count && j != i implies #[trigger] pat@.notes[j]
                == prior[j] by {}
        }
        assert(pat@.notes =~= target.notes);
    }

    /// Remove all notes.
    pub fn clear(&mut self, pat: &mut Pattern)
        requires
            old(self)@.wf(),
        ensures
            final(self)@ == old(self)@.begin_edit(old(pat)@).deselected(),
            final(pat)@ == (PatternView { notes: Seq::empty(), ..old(pat)@ }),
            final(self)@.wf(),
    {
        self.begin_edit(pat);
        pat.notes.clear();
        self.selection.clear();
        assert(pat@.notes =~= Seq::<NoteView>::empty());
        assert(self@ =~= old(self)@.begin_edit(old(pat)@).deselected());
    }

    /// Replace the pattern by the starter melody.
    pub fn load_demo(&mut self, pat: &mut Pattern)
        requires
            old(self)@.wf(),
        ensures
            final(self)@ == old(self)@.begin_edit(old(pat)@).deselected(),
            final(pat)@ == PatternView::demo(),
            final(self)@.wf(),
    {
        self.begin_edit(pat);
        *pat = Pattern::demo();
        self.selection.clear();
        assert(self@ =~= old(self)@.begin_edit(old(pat)@).deselected());
    }

    /// Set the beats in a bar, at least one.
    pub fn set_beats_per_bar(&mut self, pat: &mut Pattern, beats: i32)
        requires
            old(self)@.wf(),
        ensures
            final(self)@ == old(self)@.begin_edit(old(pat)@),
            final(pat)@ == with_beats(old(pat)@, beats),
            final(pat)@ == (PatternView {
                beats_per_bar: if beats < 1 {
                    1
                } else {
                    beats as u32
                },
                ..old(pat)@
            }),
            final(self)@.wf(),
    {
        self.begin_edit(pat);
        pat.beats_per_bar = if beats < 1 {
            1
        } else {
            beats as u32
        };
    }

    /// Set the note value that counts as one beat. Choosing the current one is
    /// no edit.
    pub fn set_beat_unit(&mut self, pat: &mut Pattern, unit: u32)
        requires
            old(self)@.wf(),
        ensures
            final(self)@ == if unit == old(pat)@.beat_unit {
                old(self)@
            } else {
                old(self)@.begin_edit(old(pat)@)
            },
            final(pat)@ == (PatternView { beat_unit: unit, ..old(pat)@ }),
            final(self)@.wf(),
    {
        if unit != pat.beat_unit {
            self.begin_edit(pat);
            pat.beat_unit = unit;
        }
    }

    /// The velocity shown for the selection: that of its first note.
    pub fn shown_velocity(&self, pat: &Pattern) -> (r: i32)
        ensures
            match first_selected(pat@.notes, self@.selection) {
                Some(n) => r == n.velocity,
                None => r == DEFAULT_VELOCITY,
            },
            r == {
                let chosen = selected_of(pat@.notes, self@.selection);
                if chosen.len() > 0 {
                    chosen[0].velocity
                } else {
                    DEFAULT_VELOCITY
                }
            },
    {
        let chosen = crate::pianoroll::pick_selected(&pat.notes, &self.selection);
        let ghost views = note_views(chosen@);
        assert(views.len() == chosen.len());
        if chosen.len() > 0 {
            assert(views[0] == chosen[0]@);
            chosen[0].velocity
        } else {
            DEFAULT_VELOCITY
        }
    }

    /// The label shown for the selection: that of its first note.
    pub fn shown_label(&self, pat: &Pattern) -> (r: String)
        ensures
            match first_selected(pat@.notes, self@.selection) {
                Some(n) => r@ == n.label,
                None => r@.len() == 0,
            },
            r@ == {
                let chosen = selected_of(pat@.notes, self@.selection);
                if chosen.len() > 0 {
                    chosen[0].label
                } else {
                    Seq::empty()
                }
            },
    {
        let chosen = crate::pianoroll::pick_selected(&pat.notes, &self.selection);
        let ghost views = note_views(chosen@);
        assert(views.len() == chosen.len());
        if chosen.len() > 0 {
            assert(views[0] == chosen[0]@);
            chosen[0].label.clone()
        } else {
            let none = String::new();
            assert(none@ =~= Seq::<char>::empty());
            none
        }
    }

    /// Give every pitch class a color: gray where there was none, and none
    /// beyond the first 24.
    pub fn fit_colors(&mut self, spo: i32)
        requires
            spo >= 0,
        ensures
            final(self)@ == (EditorView {
                custom_colors: fitted_colors(old(self)@.custom_colors, spo),
                ..old(self)@
            }),
            old(self)@.wf() ==> final(self)@.wf(),
    {
        let cap: usize = if spo < 24 {
            spo as usize
        } else {
            24
        };
        let ghost before = self.custom_colors@;
        while self.custom_colors.len() < cap
            invariant
                before == old(self)@.custom_colors,
                self@ == (EditorView { custom_colors: self.custom_colors@, ..old(self)@ }),
                self.custom_colors.len() <= cap || self.custom_colors@ == before,
                self.custom_colors.len() >= before.len(),
                forall|j: int|
                    0 <= j < self.custom_colors.len() ==> #[trigger] self.custom_colors[j] == if j
                        < before.len() {
                        before[j]
                    } else {
                        Rgb { red: 140, green: 140, blue: 140 }
                    },
            decreases cap - self.custom_colors.len(),
        {
            self.custom_colors.push(Rgb { red: 140, green: 140, blue: 140 });
        }
        self.custom_colors.truncate(cap);
        assert(self.custom_colors@ =~= fitted_colors(before, spo));
        assert(self@ =~= EditorView {
            custom_colors: fitted_colors(before, spo),
            ..old(self)@
        });
    }
}

/// One color per pitch class: gray where there was none, and none beyond the
/// first 24.
pub open spec fn fitted_colors(colors: Seq<Rgb>, spo: i32) -> Seq<Rgb> {
    Seq::new(
        (if spo < MAX_COLORS {
            spo as int
        } else {
            MAX_COLORS as int
        }) as nat,
        |i: int|
            if i < colors.len() {
                colors[i]
            } else {
                Rgb { red: 140, green: 140, blue: 140 }
            },
    )
}

/// The length of the clip from a number field, at least one step.
pub fn set_clip_len(pat: &mut Pattern, steps: i32)
    ensures
        final(pat)@ == old(pat)@.set_len(
            if steps < 1 {
                1
            } else {
                steps as usize
            },
        ),
{
    pat.set_len(
        if steps < 1 {
            1
        } else {
            steps as usize
        },
    );
}

// ---------------------------------------------------------------------------
// Keyboard shortcuts
// ---------------------------------------------------------------------------

/// The keys and clipboard commands of one frame.
#[derive(Debug, Clone, Copy, PartialEq, Eq, Structural)]
pub struct Keys {
    /// A text is being typed; no key is a shortcut then.
    pub typing: bool,
    pub copy: bool,
    pub cut: bool,
    pub paste: bool,
    /// Delete or Backspace.
    pub delete: bool,
    pub command: bool,
    pub shift: bool,
    pub a: bool,
    /// D or B.
    pub d: bool,
    pub z: bool,
    pub y: bool,
    pub s: bool,
    pub up: bool,
    pub down: bool,
}

/// What a keyboard shortcut does.
#[derive(Debug, Clone, Copy, PartialEq, Eq, Structural)]
pub enum Shortcut {
    Nothing,
    Copy,
    Cut,
    Paste,
    Delete,
    SelectAll,
    Duplicate,
    Undo,
    Redo,
    Save,
    OctaveUp,
    OctaveDown,
    StepUp,
    StepDown,
}

/// The shortcut that the keys ask for; the first in this order wins.
pub open spec fn shortcut_of(k: Keys) -> Shortcut {
    if k.typing {
        Shortcut::Nothing
    } else if k.copy {
        Shortcut::Copy
    } else if k.cut {
        Shortcut::Cut
    } else if k.paste {
        Shortcut::Paste
    } else if k.delete {
        Shortcut::Delete
    } else if k.command && k.a {
        Shortcut::SelectAll
    } else if k.command && k.d {
        Shortcut::Duplicate
    } else if k.command && k.z && !k.shift {
        Shortcut::Undo
    } else if k.command && (k.z || k.y) {
        Shortcut::Redo
    } else if k.command && k.s {
        Shortcut::Save
    } else if k.command && k.up {
        Shortcut::OctaveUp
    } else if k.command && k.down {
        Shortcut::OctaveDown
    } else if k.shift && k.up {
        Shortcut::StepUp
    } else if k.shift && k.down {
        Shortcut::StepDown
    } else {
        Shortcut::Nothing
    }
}

impl Keys {
    /// The shortcut that the keys ask for.
    pub fn shortcut(&self) -> (r: Shortcut)
        ensures
            r == shortcut_of(*self),
    {
        if self.typing {
            Shortcut::Nothing
        } else if self.copy {
            Shortcut::Copy
        } else if self.cut {
            Shortcut::Cut
        } else if self.paste {
            Shortcut::Paste
        } else if self.delete {
            Shortcut::Delete
        } else if self.command && self.a {
            Shortcut::SelectAll
        } else if self.command && self.d {
            Shortcut::Duplicate
        } else if self.command && self.z {
            if self.shift {
                Shortcut::Redo
            } else {
                Shortcut::Undo
            }
        } else if self.command && self.y {
            Shortcut::Redo
        } else if self.command && self.s {
            Shortcut::Save
        } else if self.command && self.up {
            Shortcut::OctaveUp
        } else if self.command && self.down {
            Shortcut::OctaveDown
        } else if self.shift && self.up {
            Shortcut::StepUp
        } else if self.shift && self.down {
            Shortcut::StepDown
        } else {
            Shortcut::Nothing
        }
    }
}

/// How many rows a shortcut shifts the selected notes by.
pub open spec fn shortcut_rows(s: Shortcut, spo: int) -> int {
    match s {
        Shortcut::OctaveUp => spo,
        Shortcut::OctaveDown => -spo,
        Shortcut::StepUp => 1,
        Shortcut::StepDown => -1,
        _ => 0,
    }
}


impl EditorView {
    /// After a shortcut on pattern `p`.
    pub open spec fn after_shortcut(self, p: PatternView, s: Shortcut) -> EditorView {
        match s {
            Shortcut::Copy => self.copy_selected(p),
            Shortcut::Cut => self.copy_selected(p).delete_selected(p),
            Shortcut::Paste => self.paste(p),
            Shortcut::Delete => self.delete_selected(p),
            Shortcut::SelectAll => self.select_all(p),
            Shortcut::Duplicate => self.duplicate_selected(p),
            Shortcut::Undo => self.undo(p),
            Shortcut::Redo => self.redo(),
            Shortcut::Save | Shortcut::Nothing => self,
            _ => if self.none_selected() {
                self
            } else {
                self.begin_edit(p)
            },
        }
    }

    /// Pattern `p` after a shortcut, with the playhead at `ph`.
    pub open spec fn shortcut_pattern(
        self,
        p: PatternView,
        s: Shortcut,
        spo: int,
        ph: nat,
    ) -> PatternView {
        match s {
            Shortcut::Copy | Shortcut::SelectAll | Shortcut::Save | Shortcut::Nothing => p,
            Shortcut::Cut | Shortcut::Delete => self.delete_pattern(p),
            Shortcut::Paste => self.paste_pattern(p, ph),
            Shortcut::Duplicate => self.duplicate_pattern(p),
            Shortcut::Undo => self.undo_pattern(p),
            Shortcut::Redo => self.redo_pattern(p),
            _ => if self.none_selected() {
                p
            } else {
                transposed(p, self.selection, shortcut_rows(s, spo), spo)
            },
        }
    }
}

impl EditorState {
    /// Carry out a shortcut. Saving is left to the caller.
    pub fn apply_shortcut(&mut self, pat: &mut Pattern, s: Shortcut, spo: i32, ph: Steps)
        requires
            old(self)@.wf(),
            spo >= 0,
            s == Shortcut::Duplicate ==> old(pat)@.next_id + old(pat)@.notes.len() <= u64::MAX,
            s == Shortcut::Paste ==> old(pat)@.next_id + old(self)@.clipboard.len() <= u64::MAX,
        ensures
            final(self)@ == old(self)@.after_shortcut(old(pat)@, s),
            final(pat)@ == old(self)@.shortcut_pattern(old(pat)@, s, spo as int, ph@),
            final(self)@.wf(),
    {
        match s {
            Shortcut::Copy => self.copy_selected(pat),
            Shortcut::Cut => self.cut_selected(pat),
            Shortcut::Paste => self.paste_at_playhead(pat, ph),
            Shortcut::Delete => self.delete_selected(pat),
            Shortcut::SelectAll => self.select_all(pat),
            Shortcut::Duplicate => self.duplicate_selected(pat),
            Shortcut::Undo => self.undo(pat),
            Shortcut::Redo => self.redo(pat),
            Shortcut::Save | Shortcut::Nothing => {},
            Shortcut::OctaveUp => self.transpose(pat, spo, spo),
            Shortcut::OctaveDown => self.transpose(pat, -spo, spo),
            Shortcut::StepUp => self.transpose(pat, 1, spo),
            Shortcut::StepDown => self.transpose(pat, -1, spo),
        }
    }
}

} // verus!
