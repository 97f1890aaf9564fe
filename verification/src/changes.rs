//! What each edit changes, note by note, and what it leaves alone.
use vstd::prelude::*;

#[allow(unused_imports)]
use crate::dragging::{is_held, lemma_copies_are};
#[allow(unused_imports)]
use crate::editing::lemma_first_start;
#[allow(unused_imports)]
use crate::edits::{
    first_selected, fitted_colors, leads, shortcut_of, transposed, with_beats, with_label,
    with_velocity, Keys, Shortcut,
};
#[allow(unused_imports)]
use crate::grid::UNITS_PER_STEP;
#[allow(unused_imports)]
use crate::pattern::{ids_unique, lemma_first_with_id_found, NoteView, PatternView};
#[allow(unused_imports)]
use crate::pianoroll::{
    first_start, following_starts, paste_starts, selected_of, unselected_of, EditorView, Rgb,
    Scheme,
};
#[allow(unused_imports)]
use crate::text::decimal;

verus! {

// ---------------------------------------------------------------------------
// Undo points
// ---------------------------------------------------------------------------

/// Recording an undo point forgets what could be redone, keeps the latest hundred
/// points, and changes nothing but the undo points.
pub proof fn recording_adds_a_point(e: EditorView, p: PatternView)
    requires
        e.wf(),
    ensures
        ({
            let r = e.begin_edit(p);
            let kept: int = if e.history.len() == 0 {
                0
            } else {
                e.history_pos + 1
            };
            &&& r == (EditorView { history: r.history, history_pos: r.history_pos, ..e })
            &&& kept < 100 ==> r.history == e.history.take(kept).push(p)
            &&& kept == 100 ==> r.history == e.history.subrange(1, 100).push(p)
            &&& r.history_pos + 1 == r.history.len()
        }),
{
    let r = e.begin_edit(p);
    if e.history.len() > 0 && e.history_pos + 1 == e.history.len() {
        assert(e.history.take(e.history_pos + 1) =~= e.history);
    }
    if e.history.len() == 0 {
        assert(e.history.take(0) =~= e.history);
    }
    if e.history_pos + 1 == 100 && e.history.len() == 100 {
        assert(r.history =~= e.history.subrange(1, 100).push(p));
    }
}

/// Undo goes back to the state before the last edit: to the newest point where the
/// pattern was edited since, which is then kept to be redone, or else to the point
/// before. It deselects everything and changes nothing else of the editor; with
/// nothing to go back to, it does nothing.
pub proof fn undo_goes_one_point_back(e: EditorView, p: PatternView)
    requires
        e.wf(),
    ensures
        ({
            let r = e.undo(p);
            let q = e.undo_pattern(p);
            let newest = e.history_pos + 1 == e.history.len();
            let edited = newest && e.history[e.history_pos as int] != p;
            &&& edited ==> q == e.history[e.history_pos as int] && r == (EditorView {
                selection: Set::empty(),
                history: r.history,
                history_pos: r.history_pos,
                ..e
            }) && r.history.last() == p && r.history_pos + 2 == r.history.len()
                && r.history[r.history_pos as int] == q && (e.history.len() < 100 ==> r.history
                == e.history.push(p)) && (e.history.len() == 100 ==> r.history
                == e.history.subrange(1, 100).push(p))
            &&& !edited && e.history_pos > 0 ==> q == e.history[e.history_pos - 1] && r == (
            EditorView {
                selection: Set::empty(),
                history_pos: (e.history_pos - 1) as usize,
                ..e
            })
            &&& !edited && e.history_pos == 0 ==> q == p && r == e
        }),
{
    if e.history_pos + 1 == e.history.len() && e.history.len() == 100 {
        assert(e.history.push(p).drop_first() =~= e.history.subrange(1, 100).push(p));
    }
}

/// Redo goes to the next point, deselects everything and changes nothing else;
/// with nothing to redo, it does nothing.
pub proof fn redo_goes_one_point_forward(e: EditorView, p: PatternView)
    requires
        e.wf(),
    ensures
        e.history_pos + 1 < e.history.len() ==> e.redo_pattern(p) == e.history[e.history_pos + 1]
            && e.redo() == (EditorView {
            selection: Set::empty(),
            history_pos: (e.history_pos + 1) as usize,
            ..e
        }),
        e.history_pos + 1 >= e.history.len() ==> e.redo_pattern(p) == p && e.redo() == e,
{
}

/// `r` is `e` with one more undo point, `p`, and otherwise as `e` but for the
/// selection.
pub open spec fn is_recorded(r: EditorView, e: EditorView, p: PatternView) -> bool {
    &&& r == (EditorView {
        selection: r.selection,
        history: r.history,
        history_pos: r.history_pos,
        ..e
    })
    &&& r.history == e.begin_edit(p).history
    &&& r.history_pos == e.begin_edit(p).history_pos
    &&& r.history.last() == p
}

// ---------------------------------------------------------------------------
// The clipboard and the selection
// ---------------------------------------------------------------------------

/// How many of the first `n` notes are in the selection, or outside of it.
pub open spec fn count_selected(
    notes: Seq<NoteView>,
    selection: Set<u64>,
    inside: bool,
    n: int,
) -> nat
    decreases n,
{
    if n <= 0 {
        0
    } else {
        count_selected(notes, selection, inside, n - 1) + if selection.contains(notes[n - 1].id)
            == inside {
            1nat
        } else {
            0
        }
    }
}

/// `part` holds the notes in the selection, or those outside of it, in their order.
pub open spec fn is_part(
    part: Seq<NoteView>,
    notes: Seq<NoteView>,
    selection: Set<u64>,
    inside: bool,
) -> bool {
    &&& part.len() == count_selected(notes, selection, inside, notes.len() as int)
    &&& forall|i: int|
        0 <= i < notes.len() && selection.contains((#[trigger] notes[i]).id) == inside ==> {
            let k = count_selected(notes, selection, inside, i);
            0 <= k < part.len() && part[k as int] == notes[i]
        }
}

proof fn lemma_count_prefix(
    a: Seq<NoteView>,
    b: Seq<NoteView>,
    selection: Set<u64>,
    inside: bool,
    n: int,
)
    requires
        0 <= n <= a.len() <= b.len(),
        forall|i: int| 0 <= i < a.len() ==> a[i] == b[i],
    ensures
        count_selected(a, selection, inside, n) == count_selected(b, selection, inside, n),
    decreases n,
{
    if n > 0 {
        lemma_count_prefix(a, b, selection, inside, n - 1);
        assert(a[n - 1] == b[n - 1]);
    }
}

proof fn lemma_selected_at(notes: Seq<NoteView>, selection: Set<u64>, i: int)
    requires
        0 <= i <= notes.len(),
    ensures
        ({
            let s = selected_of(notes, selection);
            let k = count_selected(notes, selection, true, i);
            &&& s.len() == count_selected(notes, selection, true, notes.len() as int)
            &&& i < notes.len() && selection.contains(notes[i].id) ==> k < s.len() && s[k as int]
                == notes[i]
        }),
    decreases notes.len(),
{
    reveal(Seq::filter);
    if notes.len() > 0 {
        let rest = notes.drop_last();
        let n = rest.len() as int;
        lemma_count_prefix(rest, notes, selection, true, n);
        if i < n {
            lemma_selected_at(rest, selection, i);
            lemma_count_prefix(rest, notes, selection, true, i);
            assert(rest[i] == notes[i]);
        } else {
            lemma_selected_at(rest, selection, n);
        }
    }
}

proof fn lemma_unselected_at(notes: Seq<NoteView>, selection: Set<u64>, i: int)
    requires
        0 <= i <= notes.len(),
    ensures
        ({
            let s = unselected_of(notes, selection);
            let k = count_selected(notes, selection, false, i);
            &&& s.len() == count_selected(notes, selection, false, notes.len() as int)
            &&& i < notes.len() && !selection.contains(notes[i].id) ==> k < s.len() && s[k as int]
                == notes[i]
        }),
    decreases notes.len(),
{
    reveal(Seq::filter);
    if notes.len() > 0 {
        let rest = notes.drop_last();
        let n = rest.len() as int;
        lemma_count_prefix(rest, notes, selection, false, n);
        if i < n {
            lemma_unselected_at(rest, selection, i);
            lemma_count_prefix(rest, notes, selection, false, i);
            assert(rest[i] == notes[i]);
        } else {
            lemma_unselected_at(rest, selection, n);
        }
    }
}

proof fn lemma_parts(notes: Seq<NoteView>, selection: Set<u64>)
    ensures
        is_part(selected_of(notes, selection), notes, selection, true),
        is_part(unselected_of(notes, selection), notes, selection, false),
{
    let s = selected_of(notes, selection);
    let u = unselected_of(notes, selection);
    lemma_selected_at(notes, selection, notes.len() as int);
    lemma_unselected_at(notes, selection, notes.len() as int);
    assert forall|i: int|
        0 <= i < notes.len() && selection.contains((#[trigger] notes[i]).id) == true implies {
        let k = count_selected(notes, selection, true, i);
        0 <= k < s.len() && s[k as int] == notes[i]
    } by {
        lemma_selected_at(notes, selection, i);
    }
    assert forall|i: int|
        0 <= i < notes.len() && selection.contains((#[trigger] notes[i]).id) == false implies {
        let k = count_selected(notes, selection, false, i);
        0 <= k < u.len() && u[k as int] == notes[i]
    } by {
        lemma_unselected_at(notes, selection, i);
    }
}

/// Copying puts the selected notes in the clipboard, as they are and in their
/// order, and changes nothing else.
pub proof fn copying_takes_the_selected_notes(e: EditorView, p: PatternView, spo: int, ph: nat)
    ensures
        ({
            let r = e.after_shortcut(p, Shortcut::Copy);
            &&& r == (EditorView { clipboard: r.clipboard, ..e })
            &&& is_part(r.clipboard, p.notes, e.selection, true)
            &&& e.shortcut_pattern(p, Shortcut::Copy, spo, ph) == p
        }),
{
    lemma_parts(p.notes, e.selection);
}

/// Deleting takes the selected notes out of the pattern and leaves the others as
/// they are and in their order. It records an undo point and deselects everything;
/// with nothing selected it does nothing.
pub proof fn deleting_leaves_the_other_notes(e: EditorView, p: PatternView, spo: int, ph: nat)
    requires
        e.wf(),
    ensures
        ({
            let r = e.after_shortcut(p, Shortcut::Delete);
            let q = e.shortcut_pattern(p, Shortcut::Delete, spo, ph);
            &&& e.selection.is_empty() ==> r == e && q == p
            &&& !e.selection.is_empty() ==> {
                &&& is_recorded(r, e, p)
                &&& forall|x: u64| !(#[trigger] r.selection.contains(x))
                &&& q == (PatternView { notes: q.notes, ..p })
                &&& is_part(q.notes, p.notes, e.selection, false)
            }
        }),
{
    lemma_parts(p.notes, e.selection);
    recording_adds_a_point(e, p);
    if e.selection.is_empty() {
        assert(e.selection =~= Set::<u64>::empty());
    }
}

/// Cutting is copying and then deleting.
pub proof fn cutting_is_copying_and_deleting(e: EditorView, p: PatternView, spo: int, ph: nat)
    requires
        e.wf(),
    ensures
        e.after_shortcut(p, Shortcut::Cut).clipboard == e.after_shortcut(
            p,
            Shortcut::Copy,
        ).clipboard,
        e.after_shortcut(p, Shortcut::Cut) == (EditorView {
            clipboard: e.after_shortcut(p, Shortcut::Cut).clipboard,
            ..e.after_shortcut(p, Shortcut::Delete)
        }),
        e.shortcut_pattern(p, Shortcut::Cut, spo, ph) == e.shortcut_pattern(
            p,
            Shortcut::Delete,
            spo,
            ph,
        ),
{
}

/// Selecting all selects every note of the pattern and nothing else.
pub proof fn selecting_all_selects_every_note(e: EditorView, p: PatternView, spo: int, ph: nat)
    ensures
        ({
            let r = e.after_shortcut(p, Shortcut::SelectAll);
            &&& r == (EditorView { selection: r.selection, ..e })
            &&& forall|i: int| 0 <= i < p.notes.len() ==> r.selection.contains(
                (#[trigger] p.notes[i]).id,
            )
            &&& forall|x: u64| #[trigger]
                r.selection.contains(x) ==> exists|i: int|
                    0 <= i < p.notes.len() && (#[trigger] p.notes[i]).id == x
            &&& e.shortcut_pattern(p, Shortcut::SelectAll, spo, ph) == p
        }),
{
}

/// `c` is a copy of `n` with identity `id`: only its start may be another, and its
/// length where it was below a step.
pub open spec fn is_copy(c: NoteView, n: NoteView, id: int) -> bool {
    &&& c.id == id
    &&& c.pitch_index == n.pitch_index
    &&& c.velocity == n.velocity
    &&& c.label == n.label
    &&& n.length_steps >= UNITS_PER_STEP ==> c.length_steps == n.length_steps
    &&& n.length_steps < UNITS_PER_STEP ==> c.length_steps == UNITS_PER_STEP
}

/// `q` is `p` with `n` more notes.
pub open spec fn is_longer(q: PatternView, p: PatternView, n: int) -> bool {
    &&& q == (PatternView { notes: q.notes, next_id: (p.next_id + n) as u64, ..p })
    &&& q.notes.len() == p.notes.len() + n
    &&& forall|k: int| 0 <= k < p.notes.len() ==> #[trigger] q.notes[k] == p.notes[k]
}

/// Pasting adds a copy of each note of the clipboard. The earliest of them, note
/// `f`, goes to the playhead, and the others keep their distance from it; each is
/// kept between the start of the clip and its last step. An undo point is recorded,
/// only the pasted notes are selected, and the clipboard stays. An empty clipboard
/// changes nothing.
pub proof fn pasting_adds_the_clipboard(
    e: EditorView,
    p: PatternView,
    spo: int,
    ph: nat,
    f: int,
    k: int,
)
    requires
        e.wf(),
        p.total_steps >= 1,
        p.next_id + e.clipboard.len() <= u64::MAX,
        e.clipboard.len() > 0 ==> {
            &&& 0 <= f < e.clipboard.len()
            &&& 0 <= k < e.clipboard.len()
            &&& forall|i: int|
                0 <= i < e.clipboard.len() ==> e.clipboard[f].start_step <= (
                #[trigger] e.clipboard[i]).start_step
        },
    ensures
        ({
            let r = e.after_shortcut(p, Shortcut::Paste);
            let q = e.shortcut_pattern(p, Shortcut::Paste, spo, ph);
            let n = e.clipboard.len();
            &&& n == 0 ==> r == e && q == p
            &&& n > 0 ==> {
                &&& is_recorded(r, e, p)
                &&& forall|x: u64| #[trigger]
                    r.selection.contains(x) <==> p.next_id <= x < p.next_id + n
                &&& is_longer(q, p, n as int)
                &&& is_copy(q.notes[p.notes.len() + k], e.clipboard[k], p.next_id + k)
                &&& is_held(
                    q.notes[p.notes.len() + k].start_step as int,
                    ph as int,
                    e.clipboard[k].start_step - e.clipboard[f].start_step,
                    0,
                    (p.total_steps - 1) * UNITS_PER_STEP,
                )
            }
        }),
{
    let starts = paste_starts(e.clipboard, ph, p.total_steps);
    lemma_copies_are(p, e.clipboard, starts);
    recording_adds_a_point(e, p);
    if e.clipboard.len() > 0 {
        lemma_first_start(e.clipboard);
        assert(first_start(e.clipboard) == e.clipboard[f].start_step);
        assert((p.total_steps - 1) * UNITS_PER_STEP >= 0);
    }
}

/// Duplicating adds a copy of each selected note right behind it, kept between the
/// start of the clip and its last step. An undo point is recorded, and only the
/// copies are selected. With nothing selected nothing happens.
pub proof fn duplicating_adds_copies_behind(
    e: EditorView,
    p: PatternView,
    spo: int,
    ph: nat,
    i: int,
)
    requires
        e.wf(),
        p.total_steps >= 1,
        p.next_id + p.notes.len() <= u64::MAX,
        0 <= i < p.notes.len(),
        e.selection.contains(p.notes[i].id),
    ensures
        ({
            let r = e.after_shortcut(p, Shortcut::Duplicate);
            let q = e.shortcut_pattern(p, Shortcut::Duplicate, spo, ph);
            let n = count_selected(p.notes, e.selection, true, p.notes.len() as int);
            let k = count_selected(p.notes, e.selection, true, i);
            &&& is_recorded(r, e, p)
            &&& forall|x: u64| #[trigger]
                r.selection.contains(x) <==> p.next_id <= x < p.next_id + n
            &&& is_longer(q, p, n as int)
            &&& k < n
            &&& is_copy(q.notes[(p.notes.len() + k) as int], p.notes[i], p.next_id + k)
            &&& is_held(
                q.notes[(p.notes.len() + k) as int].start_step as int,
                p.notes[i].start_step as int,
                p.notes[i].length_steps as int,
                0,
                (p.total_steps - 1) * UNITS_PER_STEP,
            )
        }),
{
    let group = selected_of(p.notes, e.selection);
    lemma_parts(p.notes, e.selection);
    lemma_count_bound(p.notes, e.selection, true, p.notes.len() as int);
    lemma_copies_are(p, group, following_starts(group, p.total_steps));
    recording_adds_a_point(e, p);
    assert((p.total_steps - 1) * UNITS_PER_STEP >= 0);
    assert(!e.none_selected());
    let k = count_selected(p.notes, e.selection, true, i) as int;
    assert(group[k] == p.notes[i]);
    let q = e.shortcut_pattern(p, Shortcut::Duplicate, spo, ph);
    assert(q.notes[p.notes.len() + k].start_step == following_starts(group, p.total_steps)[k]);
}

proof fn lemma_count_bound(notes: Seq<NoteView>, selection: Set<u64>, inside: bool, n: int)
    requires
        0 <= n,
    ensures
        count_selected(notes, selection, inside, n) <= n,
    decreases n,
{
    if n > 0 {
        lemma_count_bound(notes, selection, inside, n - 1);
    }
}

/// Shortcuts that copy, cut, delete, duplicate or shift do nothing to the notes
/// without a selection; saving never touches the editor.
pub proof fn without_a_selection_notes_stay(
    e: EditorView,
    p: PatternView,
    s: Shortcut,
    spo: int,
    ph: nat,
)
    requires
        e.selection.is_empty(),
        s != Shortcut::Paste && s != Shortcut::Undo && s != Shortcut::Redo,
    ensures
        e.shortcut_pattern(p, s, spo, ph) == p,
        s != Shortcut::Copy && s != Shortcut::Cut && s != Shortcut::SelectAll ==> e.after_shortcut(
            p,
            s,
        ) == e,
{
    assert(e.selection =~= Set::<u64>::empty());
}

/// Saving, and no shortcut, leave editor and pattern as they are.
pub proof fn saving_changes_nothing(e: EditorView, p: PatternView, spo: int, ph: nat)
    ensures
        e.after_shortcut(p, Shortcut::Save) == e,
        e.shortcut_pattern(p, Shortcut::Save, spo, ph) == p,
        e.after_shortcut(p, Shortcut::Nothing) == e,
        e.shortcut_pattern(p, Shortcut::Nothing, spo, ph) == p,
        e.after_shortcut(p, Shortcut::Undo) == e.undo(p),
        e.shortcut_pattern(p, Shortcut::Undo, spo, ph) == e.undo_pattern(p),
        e.after_shortcut(p, Shortcut::Redo) == e.redo(),
        e.shortcut_pattern(p, Shortcut::Redo, spo, ph) == e.redo_pattern(p),
{
}

// ---------------------------------------------------------------------------
// Changes to the selected notes
// ---------------------------------------------------------------------------

proof fn lemma_leads(p: PatternView, i: int)
    requires
        ids_unique(p),
        0 <= i < p.notes.len(),
    ensures
        leads(p.notes, i),
{
    lemma_first_with_id_found(p.notes, p.notes[i].id);
}

/// Setting a velocity or a label changes it on the selected notes, and nothing
/// else of them or of other notes.
pub proof fn velocity_and_label_are_set_alone(
    p: PatternView,
    selection: Set<u64>,
    velocity: i32,
    label: Seq<char>,
    i: int,
)
    requires
        ids_unique(p),
        0 <= i < p.notes.len(),
    ensures
        ({
            let v = with_velocity(p, selection, velocity);
            let l = with_label(p, selection, label);
            let n = p.notes[i];
            &&& v == (PatternView { notes: v.notes, ..p })
            &&& l == (PatternView { notes: l.notes, ..p })
            &&& v.notes.len() == p.notes.len()
            &&& l.notes.len() == p.notes.len()
            &&& selection.contains(n.id) ==> v.notes[i] == (NoteView { velocity, ..n })
            &&& selection.contains(n.id) ==> l.notes[i] == (NoteView { label, ..n })
            &&& !selection.contains(n.id) ==> v.notes[i] == n && l.notes[i] == n
        }),
{
    lemma_leads(p, i);
}

/// Shifting moves the selected notes by a number of rows, each kept between two
/// octaves below the reference and seven above it, and changes nothing else of
/// them or of other notes.
pub proof fn shifting_moves_the_selected_notes(
    p: PatternView,
    selection: Set<u64>,
    delta: int,
    spo: int,
    i: int,
)
    requires
        ids_unique(p),
        0 <= spo <= 0x1000_0000,
        0 <= i < p.notes.len(),
    ensures
        ({
            let q = transposed(p, selection, delta, spo);
            let n = p.notes[i];
            let m = q.notes[i];
            &&& q == (PatternView { notes: q.notes, ..p })
            &&& q.notes.len() == p.notes.len()
            &&& !selection.contains(n.id) ==> m == n
            &&& selection.contains(n.id) ==> m == (NoteView { pitch_index: m.pitch_index, ..n })
                && is_held(m.pitch_index as int, n.pitch_index as int, delta, -2 * spo, 7 * spo)
        }),
{
    lemma_leads(p, i);
}

/// Shifting records an undo point and moves the selected notes; with nothing selected
/// it does nothing.
pub proof fn shifting_needs_a_selection(e: EditorView, p: PatternView, delta: int, spo: int, i: int)
    requires
        e.wf(),
        ids_unique(p),
        0 <= spo <= 0x1000_0000,
        0 <= i < p.notes.len(),
    ensures
        ({
            let r = e.shifted(p);
            let q = e.shifted_pattern(p, delta, spo);
            let n = p.notes[i];
            let m = q.notes[i];
            &&& e.selection.is_empty() ==> r == e && q == p
            &&& !e.selection.is_empty() ==> is_recorded(r, e, p) && r.selection == e.selection
            &&& q == (PatternView { notes: q.notes, ..p })
            &&& q.notes.len() == p.notes.len()
            &&& !e.selection.contains(n.id) ==> m == n
            &&& e.selection.contains(n.id) ==> m == (NoteView { pitch_index: m.pitch_index, ..n })
                && is_held(m.pitch_index as int, n.pitch_index as int, delta, -2 * spo, 7 * spo)
        }),
{
    recording_adds_a_point(e, p);
    shifting_moves_the_selected_notes(p, e.selection, delta, spo, i);
    if e.selection.is_empty() {
        assert(e.selection =~= Set::<u64>::empty());
    }
}

/// The note that stands for the selection is the first selected one of the pattern.
pub proof fn the_first_selected_note_stands_for_all(
    notes: Seq<NoteView>,
    selection: Set<u64>,
    i: int,
)
    requires
        forall|j: int| 0 <= j < i ==> !selection.contains((#[trigger] notes[j]).id),
        0 <= i <= notes.len(),
    ensures
        i < notes.len() && selection.contains(notes[i].id) ==> first_selected(notes, selection)
            == Some(notes[i]),
        i == notes.len() ==> first_selected(notes, selection) is None,
{
    lemma_selected_at(notes, selection, i);
    lemma_none_before(notes, selection, i);
}

proof fn lemma_none_before(notes: Seq<NoteView>, selection: Set<u64>, n: int)
    requires
        0 <= n <= notes.len(),
        forall|j: int| 0 <= j < n ==> !selection.contains((#[trigger] notes[j]).id),
    ensures
        count_selected(notes, selection, true, n) == 0,
    decreases n,
{
    if n > 0 {
        lemma_none_before(notes, selection, n - 1);
        assert(!selection.contains(notes[n - 1].id));
    }
}

/// The beats in a bar are set alone, to at least one.
pub proof fn beats_are_set_alone(p: PatternView, beats: i32)
    ensures
        with_beats(p, beats) == (PatternView {
            beats_per_bar: with_beats(p, beats).beats_per_bar,
            ..p
        }),
        beats >= 1 ==> with_beats(p, beats).beats_per_bar == beats,
        beats < 1 ==> with_beats(p, beats).beats_per_bar == 1,
{
}

/// How many rows an arrow shortcut goes: an octave or a row, up or down.
pub open spec fn rows_of(s: Shortcut, spo: int) -> int {
    if s == Shortcut::OctaveUp {
        spo
    } else if s == Shortcut::OctaveDown {
        -spo
    } else if s == Shortcut::StepUp {
        1
    } else {
        -1
    }
}

/// The arrow shortcuts shift the selected notes by an octave or by a row, up or
/// down, and record an undo point.
pub proof fn arrows_shift_the_selected_notes(
    e: EditorView,
    p: PatternView,
    s: Shortcut,
    spo: int,
    ph: nat,
    i: int,
)
    requires
        e.wf(),
        ids_unique(p),
        0 <= spo <= 0x1000_0000,
        0 <= i < p.notes.len(),
        !e.selection.is_empty(),
        s == Shortcut::OctaveUp || s == Shortcut::OctaveDown || s == Shortcut::StepUp || s
            == Shortcut::StepDown,
    ensures
        ({
            let r = e.after_shortcut(p, s);
            let q = e.shortcut_pattern(p, s, spo, ph);
            let n = p.notes[i];
            let m = q.notes[i];
            &&& is_recorded(r, e, p)
            &&& r.selection == e.selection
            &&& q == (PatternView { notes: q.notes, ..p })
            &&& q.notes.len() == p.notes.len()
            &&& !e.selection.contains(n.id) ==> m == n
            &&& e.selection.contains(n.id) ==> m == (NoteView { pitch_index: m.pitch_index, ..n })
                && is_held(
                m.pitch_index as int,
                n.pitch_index as int,
                rows_of(s, spo),
                -2 * spo,
                7 * spo,
            )
        }),
{
    recording_adds_a_point(e, p);
    shifting_moves_the_selected_notes(p, e.selection, rows_of(s, spo), spo, i);
}

// ---------------------------------------------------------------------------
// Keys
// ---------------------------------------------------------------------------

/// A shortcut comes only from its keys, and none while a text is typed.
pub proof fn shortcuts_need_their_keys(k: Keys)
    ensures
        ({
            let s = shortcut_of(k);
            &&& k.typing ==> s == Shortcut::Nothing
            &&& s == Shortcut::Copy ==> k.copy
            &&& s == Shortcut::Cut ==> k.cut
            &&& s == Shortcut::Paste ==> k.paste
            &&& s == Shortcut::Delete ==> k.delete
            &&& s == Shortcut::SelectAll ==> k.command && k.a
            &&& s == Shortcut::Duplicate ==> k.command && k.d
            &&& s == Shortcut::Undo ==> k.command && k.z && !k.shift
            &&& s == Shortcut::Redo ==> k.command && (k.y || (k.z && k.shift))
            &&& s == Shortcut::Save ==> k.command && k.s
            &&& s == Shortcut::OctaveUp ==> k.command && k.up
            &&& s == Shortcut::OctaveDown ==> k.command && k.down
            &&& s == Shortcut::StepUp ==> k.shift && k.up && !k.command
            &&& s == Shortcut::StepDown ==> k.shift && k.down && !k.command
        }),
{
}

/// Keys that ask for one thing get it: clipboard commands and deleting come first,
/// in this order, and a shortcut is given wherever its keys are down and no other
/// shortcut's.
pub proof fn keys_give_their_shortcut(k: Keys)
    requires
        !k.typing,
    ensures
        ({
            let s = shortcut_of(k);
            let plain = !k.copy && !k.cut && !k.paste && !k.delete;
            &&& k.copy ==> s == Shortcut::Copy
            &&& k.cut && !k.copy ==> s == Shortcut::Cut
            &&& k.paste && !k.copy && !k.cut ==> s == Shortcut::Paste
            &&& k.delete && !k.copy && !k.cut && !k.paste ==> s == Shortcut::Delete
            &&& plain && k.command && k.a ==> s == Shortcut::SelectAll
            &&& plain && k.command && k.d && !k.a ==> s == Shortcut::Duplicate
            &&& plain && k.command && k.z && !k.a && !k.d ==> s == if k.shift {
                Shortcut::Redo
            } else {
                Shortcut::Undo
            }
            &&& plain && k.command && k.y && !k.a && !k.d && !k.z ==> s == Shortcut::Redo
            &&& plain && k.command && k.s && !k.a && !k.d && !k.z && !k.y ==> s == Shortcut::Save
            &&& plain && k.command && k.up && !k.a && !k.d && !k.z && !k.y && !k.s ==> s
                == Shortcut::OctaveUp
            &&& plain && k.command && k.down && !k.up && !k.a && !k.d && !k.z && !k.y && !k.s
                ==> s == Shortcut::OctaveDown
            &&& plain && !k.command && k.shift && k.up ==> s == Shortcut::StepUp
            &&& plain && !k.command && k.shift && k.down && !k.up ==> s == Shortcut::StepDown
            &&& plain && !k.command && !k.shift ==> s == Shortcut::Nothing
        }),
{
}

// ---------------------------------------------------------------------------
// Clips
// ---------------------------------------------------------------------------

/// Switching stores the live pattern in its clip, opens the other clip as it was
/// stored, records it as an undo point and deselects everything. No other clip and
/// no name changes.
pub proof fn switching_stores_and_opens(e: EditorView, p: PatternView, i: int)
    requires
        e.wf(),
        e.active_clip < e.clips.len() <= usize::MAX,
        0 <= i < e.clips.len(),
    ensures
        ({
            let r = e.switch_clip(p, i);
            let q = e.stored(p).clips[i];
            &&& r.active_clip == i
            &&& r.clips.len() == e.clips.len()
            &&& r.clips[e.active_clip as int] == p
            &&& forall|k: int|
                0 <= k < e.clips.len() && k != e.active_clip ==> #[trigger] r.clips[k]
                    == e.clips[k]
            &&& q == r.clips[i]
            &&& r.selection.is_empty()
            &&& r.history == e.begin_edit(q).history
            &&& r.history_pos == e.begin_edit(q).history_pos
            &&& r.history.last() == q
            &&& r == (EditorView {
                active_clip: r.active_clip,
                clips: r.clips,
                selection: r.selection,
                history: r.history,
                history_pos: r.history_pos,
                ..e
            })
        }),
        e.stored(p) == (EditorView { clips: e.stored(p).clips, ..e }),
{
}

/// Adding a clip appends an empty one as long as the current pattern, named by its
/// number, opens it, records it as an undo point and deselects everything. No other
/// clip and no other name changes.
pub proof fn adding_a_clip_appends_one(e: EditorView, p: PatternView)
    requires
        e.wf(),
        p.total_steps >= 1,
        e.clips.len() <= usize::MAX,
    ensures
        ({
            let r = e.add_clip(p);
            let q = r.clips.last();
            &&& r.clips == e.clips.push(q)
            &&& r.clip_names == e.clip_names.push("Clip "@ + decimal(e.clips.len()))
            &&& r.active_clip == e.clips.len()
            &&& q.notes.len() == 0
            &&& q.total_steps == p.total_steps
            &&& q.beats_per_bar == 4
            &&& q.beat_unit == 4
            &&& q.next_id == 0
            &&& q == PatternView::empty(p.total_steps)
            &&& r.selection.is_empty()
            &&& r.history == e.begin_edit(q).history
            &&& r.history_pos == e.begin_edit(q).history_pos
            &&& r == (EditorView {
                active_clip: r.active_clip,
                clips: r.clips,
                clip_names: r.clip_names,
                selection: r.selection,
                history: r.history,
                history_pos: r.history_pos,
                ..e
            })
        }),
{
}

/// Deleting the active clip takes it and its name out and opens the next clip, or
/// the one before where it was the last. The other clips and names stay, in their
/// order. The only clip is never deleted.
pub proof fn deleting_a_clip_opens_its_neighbour(e: EditorView, p: PatternView)
    requires
        e.wf(),
        e.active_clip < e.clips.len(),
        e.active_clip < e.clip_names.len(),
    ensures
        ({
            let a = e.active_clip as int;
            let r = e.delete_clip(p);
            let q = e.pattern_after_delete(p);
            &&& e.clips.len() == 1 ==> r == e && q == p
            &&& e.clips.len() > 1 ==> {
                &&& r.clips.len() + 1 == e.clips.len()
                &&& r.clip_names.len() + 1 == e.clip_names.len()
                &&& forall|k: int| 0 <= k < a ==> #[trigger] r.clips[k] == e.clips[k]
                &&& forall|k: int|
                    a <= k < r.clips.len() ==> #[trigger] r.clips[k] == e.clips[k + 1]
                &&& forall|k: int| 0 <= k < a ==> #[trigger] r.clip_names[k] == e.clip_names[k]
                &&& forall|k: int|
                    a <= k < r.clip_names.len() ==> #[trigger] r.clip_names[k]
                        == e.clip_names[k + 1]
                &&& a + 1 < e.clips.len() ==> r.active_clip == a && q == e.clips[a + 1]
                &&& a + 1 == e.clips.len() ==> r.active_clip == a - 1 && q == e.clips[a - 1]
                &&& r.selection.is_empty()
                &&& r.history == e.begin_edit(q).history
                &&& r.history_pos == e.begin_edit(q).history_pos
                &&& r == (EditorView {
                    active_clip: r.active_clip,
                    clips: r.clips,
                    clip_names: r.clip_names,
                    selection: r.selection,
                    history: r.history,
                    history_pos: r.history_pos,
                    ..e
                })
            }
        }),
{
}

/// Renaming changes the name of the active clip alone; a clip without a name is
/// called by its number.
pub proof fn renaming_changes_one_name(e: EditorView, name: Seq<char>, i: int)
    requires
        e.active_clip < e.clip_names.len(),
        0 <= i,
    ensures
        ({
            let r = e.rename_clip(name);
            &&& r == (EditorView { clip_names: r.clip_names, ..e })
            &&& r.clip_names.len() == e.clip_names.len()
            &&& r.clip_name(e.active_clip as int) == name
            &&& i != e.active_clip ==> r.clip_name(i) == e.clip_name(i)
        }),
        i >= e.clip_names.len() ==> e.clip_name(i) == "Clip "@ + decimal(i as nat),
        i < e.clip_names.len() ==> e.clip_name(i) == e.clip_names[i],
{
}

/// An editor with a single clip has that pattern in it, under its number.
pub proof fn a_single_clip_holds_the_pattern(e: EditorView, p: PatternView)
    ensures
        ({
            let r = e.single_clip(p);
            &&& r.clips.len() == 1
            &&& r.clips[0] == p
            &&& r.clip_names.len() == 1
            &&& r.clip_names[0] == "Clip "@ + decimal(0)
            &&& r.active_clip == 0
            &&& r == (EditorView { clips: r.clips, clip_names: r.clip_names, active_clip: 0, ..e })
        }),
{
}

/// A new editor has no clips, notes or undo points, snaps to whole steps, draws
/// notes of a beat at four fifths of full level, and colors by pitch class.
pub proof fn a_new_editor_is_empty()
    ensures
        ({
            let e = EditorView::fresh();
            &&& e.selection.is_empty()
            &&& e.drag is None
            &&& !e.erasing
            &&& e.clipboard.len() == 0
            &&& e.clips.len() == 0
            &&& e.clip_names.len() == 0
            &&& e.active_clip == 0
            &&& e.history.len() == 0
            &&& e.history_pos == 0
            &&& e.custom_colors.len() == 0
            &&& e.snap == UNITS_PER_STEP
            &&& e.last_note_len == 4 * UNITS_PER_STEP
            &&& e.last_velocity * 5 == 4 * 1_270_000
            &&& e.tonic == 0
            &&& e.row_h == 13_000
            &&& e.scheme == Scheme::ByPitchClass
            &&& e.names == "C C# D D# E F F# G G# A A# B"@
        }),
{
}

/// Fitting the colors gives each pitch class one, up to the first 24: its own where
/// there is one, gray otherwise.
pub proof fn every_pitch_class_has_a_color(colors: Seq<Rgb>, spo: i32, i: int)
    requires
        spo >= 0,
        0 <= i < spo,
        i < 24,
    ensures
        fitted_colors(colors, spo).len() <= spo,
        fitted_colors(colors, spo).len() <= 24,
        i < fitted_colors(colors, spo).len(),
        i < colors.len() ==> fitted_colors(colors, spo)[i] == colors[i],
        i >= colors.len() ==> fitted_colors(colors, spo)[i] == (Rgb {
            red: 140,
            green: 140,
            blue: 140,
        }),
{
}

// ---------------------------------------------------------------------------
// Patterns
// ---------------------------------------------------------------------------

/// An added note stands behind the others with the next identity, as it was asked
/// for, at least a step long and without a label.
pub proof fn an_added_note_is_as_asked(
    p: PatternView,
    pitch: i32,
    start: nat,
    length: nat,
    velocity: i32,
)
    requires
        p.next_id < u64::MAX,
    ensures
        ({
            let q = p.add_note(pitch, start, length, velocity);
            let n = q.notes.last();
            &&& is_longer(q, p, 1)
            &&& n.id == p.next_id
            &&& n.pitch_index == pitch
            &&& n.start_step == start
            &&& length >= UNITS_PER_STEP ==> n.length_steps == length
            &&& length < UNITS_PER_STEP ==> n.length_steps == UNITS_PER_STEP
            &&& n.velocity == velocity
            &&& n.label.len() == 0
        }),
{
}

/// A duplicate stands behind the others with the next identity; it sounds and reads
/// like the note it copies, at its own place.
pub proof fn a_duplicate_sounds_alike(p: PatternView, src: NoteView, start: nat, length: nat)
    requires
        p.next_id < u64::MAX,
    ensures
        ({
            let q = p.duplicate(src, start, length);
            let n = q.notes.last();
            &&& is_longer(q, p, 1)
            &&& n.id == p.next_id
            &&& n.start_step == start
            &&& length >= UNITS_PER_STEP ==> n.length_steps == length
            &&& length < UNITS_PER_STEP ==> n.length_steps == UNITS_PER_STEP
            &&& n.pitch_index == src.pitch_index
            &&& n.velocity == src.velocity
            &&& n.label == src.label
        }),
{
}

/// Setting a label changes the label of that note alone; without such a note
/// nothing changes.
pub proof fn a_label_is_set_on_one_note(p: PatternView, id: u64, label: Seq<char>, i: int)
    requires
        ids_unique(p),
        0 <= i < p.notes.len(),
    ensures
        ({
            let q = p.set_label(id, label);
            &&& q == (PatternView { notes: q.notes, ..p })
            &&& q.notes.len() == p.notes.len()
            &&& p.notes[i].id == id ==> q.notes[i] == (NoteView { label, ..p.notes[i] })
            &&& p.notes[i].id != id ==> q.notes[i] == p.notes[i]
        }),
{
    lemma_first_with_id_found(p.notes, id);
}

/// Changing the length of a clip leaves a note alone as far as it fits: one that
/// starts in the clip keeps its start and is cut at the end of the clip, but not
/// below a step; one that starts beyond the end goes to the last step. Pitch,
/// velocity, label and identity stay, and so does the rest of the pattern.
pub proof fn a_new_length_cuts_notes_at_the_end(p: PatternView, steps: usize, i: int)
    requires
        steps >= 1,
        0 <= i < p.notes.len(),
    ensures
        ({
            let q = p.set_len(steps);
            let n = p.notes[i];
            let m = q.notes[i];
            let total = steps * UNITS_PER_STEP;
            &&& q == (PatternView { notes: q.notes, total_steps: steps, ..p })
            &&& q.notes.len() == p.notes.len()
            &&& m == (NoteView { start_step: m.start_step, length_steps: m.length_steps, ..n })
            &&& n.start_step < total ==> m.start_step == n.start_step
            &&& n.start_step >= total ==> m.start_step == total - UNITS_PER_STEP && m.length_steps
                == UNITS_PER_STEP
            &&& m.length_steps >= UNITS_PER_STEP
            &&& n.start_step < total && n.length_steps >= UNITS_PER_STEP && n.start_step
                + n.length_steps <= total ==> m.length_steps == n.length_steps
            &&& n.start_step < total && n.start_step + UNITS_PER_STEP <= total && n.start_step
                + n.length_steps > total ==> m.start_step + m.length_steps == total
            &&& n.start_step < total && (n.start_step + UNITS_PER_STEP > total || n.length_steps
                < UNITS_PER_STEP) ==> m.length_steps == UNITS_PER_STEP
        }),
        p.set_len(0) == p.set_len(1),
{
    assert(steps * UNITS_PER_STEP >= UNITS_PER_STEP);
    assert(p.set_len(0) =~= p.set_len(1));
}

/// An empty pattern has no notes, the length asked for, at least a step, and four
/// quarters to a bar.
pub proof fn an_empty_pattern_is_empty(steps: usize)
    ensures
        ({
            let p = PatternView::empty(steps);
            &&& p.notes.len() == 0
            &&& steps >= 1 ==> p.total_steps == steps
            &&& steps == 0 ==> p.total_steps == 1
            &&& p.beats_per_bar == 4
            &&& p.beat_unit == 4
            &&& p.next_id == 0
        }),
{
}

/// The starter melody is two bars long and has a note on every beat, a beat long,
/// numbered from zero.
pub proof fn the_starter_melody_has_a_note_per_beat(i: int)
    requires
        0 <= i < 8,
    ensures
        ({
            let p = PatternView::demo();
            let n = p.notes[i];
            &&& p.notes.len() == 8
            &&& p.total_steps == 32
            &&& p.beats_per_bar == 4
            &&& p.beat_unit == 4
            &&& p.next_id == 8
            &&& n.id == i
            &&& n.start_step == i * (4 * UNITS_PER_STEP)
            &&& n.length_steps == 4 * UNITS_PER_STEP
            &&& n.velocity == 1_016_000
            &&& n.label.len() == 0
            &&& 0 <= n.pitch_index <= 16
            &&& (i == 0 || i == 4) ==> n.pitch_index == 9
            &&& (i == 1 || i == 3) ==> n.pitch_index == 12
            &&& i == 2 ==> n.pitch_index == 16
            &&& i == 5 ==> n.pitch_index == 7
            &&& i == 6 ==> n.pitch_index == 4
            &&& i == 7 ==> n.pitch_index == 0
        }),
{
}

} // verus!
