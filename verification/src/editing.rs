//! What holds of editing: identities stay unique, the selection stays valid,
//! and undo and redo walk the recorded points.
use vstd::prelude::*;

#[allow(unused_imports)]
use crate::clips::numbered_clip;
#[allow(unused_imports)]
use crate::edits::{leads, lemma_same_ids, with_label, with_velocity, Shortcut};
#[allow(unused_imports)]
use crate::gesture::{
    clip_units, erased, ids_of, moved_group, moved_note, resized_group, resized_note, toggled,
    Shift,
};
#[allow(unused_imports)]
use crate::grid::UNITS_PER_STEP;
#[allow(unused_imports)]
use crate::pattern::{
    at_least_one_step, end_of, ids_unique, lemma_first_with_id_found, NoteView, PatternView,
};
#[allow(unused_imports)]
use crate::pianoroll::{
    first_start, following_starts, last_step_start, next_ids, paste_starts, plus_copies,
    same_starts, selected_of, unselected_of, DragView, Edge, EditorView, HISTORY_LIMIT,
};

verus! {

// ---------------------------------------------------------------------------
// Undo and redo
// ---------------------------------------------------------------------------

/// Recording an undo point keeps at most a hundred points, makes the recorded
/// pattern the current point, and leaves nothing to redo.
pub proof fn recording_is_bounded(e: EditorView, p: PatternView)
    requires
        e.wf(),
    ensures
        e.begin_edit(p).wf(),
        e.begin_edit(p).history.len() <= HISTORY_LIMIT,
        e.begin_edit(p).history[e.begin_edit(p).history_pos as int] == p,
        !e.begin_edit(p).can_redo(),
        e.begin_edit(p).selection == e.selection,
        e.begin_edit(p).clips == e.clips,
{
}

/// An edit is taken back by undo: after `p` was recorded and edited to `q`, undo
/// gives `p` with nothing selected, and redo then gives `q`.
pub proof fn undo_takes_back_an_edit(e: EditorView, p: PatternView, q: PatternView)
    requires
        e.wf(),
        q != p,
    ensures
        ({
            let undone = e.begin_edit(p).undo(q);
            &&& e.begin_edit(p).can_undo(q)
            &&& e.begin_edit(p).undo_pattern(q) == p
            &&& undone.none_selected()
            &&& undone.wf()
            &&& undone.can_redo()
            &&& undone.redo_pattern(p) == q
            &&& undone.redo().none_selected()
            &&& !undone.redo().can_redo()
        }),
{
}

/// Edits in a row are taken back one by one: after `p` was edited to `q` and
/// that to `r`, each recorded before it, undo gives `q` and then `p`, and redo
/// then gives `q` and `r`.
pub proof fn edits_are_taken_back_one_by_one(
    e: EditorView,
    p: PatternView,
    q: PatternView,
    r: PatternView,
)
    requires
        e.wf(),
        r != q,
    ensures
        ({
            let edited = e.begin_edit(p).begin_edit(q);
            let once = edited.undo(r);
            let twice = once.undo(q);
            &&& edited.undo_pattern(r) == q
            &&& once.undo_pattern(q) == p
            &&& twice.redo_pattern(p) == q
            &&& twice.redo().redo_pattern(q) == r
        }),
{
}

/// Redo brings back what undo left, where that was the newest state or the
/// point that the editor stood at; undo brings back the point that redo left.
pub proof fn undo_and_redo_are_inverse(e: EditorView, p: PatternView)
    requires
        e.wf(),
    ensures
        e.can_undo(p) && (e.can_redo() ==> e.history[e.history_pos as int] == p) ==> {
            &&& e.undo(p).can_redo()
            &&& e.undo(p).redo_pattern(e.undo_pattern(p)) == p
        },
        e.can_redo() ==> {
            &&& e.redo().can_undo(e.redo_pattern(p))
            &&& e.redo().undo_pattern(e.redo_pattern(p)) == e.history[e.history_pos as int]
            &&& e.redo().undo(e.redo_pattern(p)).history == e.history
            &&& e.redo().undo(e.redo_pattern(p)).history_pos == e.history_pos
        },
        e.undo(p).wf(),
        e.redo().wf(),
{
}

// ---------------------------------------------------------------------------
// Identities and the selection
// ---------------------------------------------------------------------------

/// Every selected note is in the pattern.
pub open spec fn selection_valid(selection: Set<u64>, p: PatternView) -> bool {
    forall|id: u64| #[trigger] selection.contains(id) ==> has_note(p, id)
}

/// Some note of the pattern has identity `id`.
pub open spec fn has_note(p: PatternView, id: u64) -> bool {
    exists|i: int| 0 <= i < p.notes.len() && (#[trigger] p.notes[i]).id == id
}

/// Identities are unique in the pattern being edited, in all clips and in all
/// undo points, and the selection is valid.
pub open spec fn sound(e: EditorView, p: PatternView) -> bool {
    &&& e.wf()
    &&& ids_unique(p)
    &&& selection_valid(e.selection, p)
    &&& forall|i: int| 0 <= i < e.history.len() ==> ids_unique(#[trigger] e.history[i])
    &&& forall|i: int| 0 <= i < e.clips.len() ==> ids_unique(#[trigger] e.clips[i])
}

/// A new note gets an identity of its own, and takes none away.
pub proof fn a_new_note_is_unique(p: PatternView, n: NoteView, selection: Set<u64>)
    requires
        ids_unique(p),
        p.next_id < u64::MAX,
        selection_valid(selection, p),
    ensures
        ids_unique(p.plus(n)),
        !has_note(p, p.next_id),
        has_note(p.plus(n), p.next_id),
        selection_valid(selection, p.plus(n)),
        selection_valid(selection.insert(p.next_id), p.plus(n)),
{
    let q = p.plus(n);
    assert(q.notes[p.notes.len() as int].id == p.next_id);
    assert forall|id: u64| #[trigger] selection.contains(id) implies has_note(q, id) by {
        let i = choose|i: int| 0 <= i < p.notes.len() && (#[trigger] p.notes[i]).id == id;
        assert(q.notes[i].id == id);
    }
}

/// The copy that `plus_copies` adds for note `i` of a list.
pub open spec fn copy_of(p: PatternView, notes: Seq<NoteView>, starts: Seq<nat>, i: int) -> NoteView {
    NoteView {
        id: (p.next_id + i) as u64,
        start_step: starts[i],
        length_steps: at_least_one_step(notes[i].length_steps),
        ..notes[i]
    }
}

/// Copying notes leaves all notes as they were and adds one copy of each, which
/// keeps pitch, velocity and label. The copies, and no others, have the new
/// identities.
pub proof fn copying_adds_exactly_the_copies(p: PatternView, notes: Seq<NoteView>, starts: Seq<nat>)
    requires
        ids_unique(p),
        starts.len() == notes.len(),
        p.next_id + notes.len() <= u64::MAX,
    ensures
        plus_copies(p, notes, starts).notes == p.notes + Seq::new(
            notes.len(),
            |i: int| copy_of(p, notes, starts, i),
        ),
        plus_copies(p, notes, starts).next_id == p.next_id + notes.len(),
        ids_unique(plus_copies(p, notes, starts)),
        forall|id: u64| #[trigger]
            next_ids(p, notes.len() as int).contains(id) <==> has_note(
                plus_copies(p, notes, starts),
                id,
            ) && !has_note(p, id),
        selection_valid(next_ids(p, notes.len() as int), plus_copies(p, notes, starts)),
{
    lemma_copies(p, notes, starts, notes.len() as int);
    let q = plus_copies(p, notes, starts);
    assert(notes.take(notes.len() as int) =~= notes);
    let copies = Seq::new(notes.len(), |i: int| copy_of(p, notes, starts, i));
    assert(q.notes =~= p.notes + copies);
    assert forall|id: u64| #[trigger] next_ids(p, notes.len() as int).contains(id) <==> has_note(
        q,
        id,
    ) && !has_note(p, id) by {
        if next_ids(p, notes.len() as int).contains(id) {
            assert(q.notes[p.notes.len() + (id - p.next_id)].id == id);
        }
        if has_note(q, id) && !has_note(p, id) {
            let i = choose|i: int| 0 <= i < q.notes.len() && (#[trigger] q.notes[i]).id == id;
            if i < p.notes.len() {
                assert(p.notes[i].id == id);
            }
        }
    }
}

proof fn lemma_copies(p: PatternView, notes: Seq<NoteView>, starts: Seq<nat>, k: int)
    requires
        ids_unique(p),
        starts.len() == notes.len(),
        0 <= k <= notes.len(),
        p.next_id + notes.len() <= u64::MAX,
    ensures
        ({
            let q = plus_copies(p, notes.take(k), starts);
            &&& q.notes == p.notes + Seq::new(k as nat, |i: int| copy_of(p, notes, starts, i))
            &&& q.next_id == p.next_id + k
            &&& q.total_steps == p.total_steps
            &&& ids_unique(q)
        }),
    decreases k,
{
    let copies = |m: int| Seq::new(m as nat, |i: int| copy_of(p, notes, starts, i));
    let q = plus_copies(p, notes.take(k), starts);
    if k == 0 {
        assert(p.notes =~= p.notes + copies(0));
    } else {
        lemma_copies(p, notes, starts, k - 1);
        assert(notes.take(k).drop_last() =~= notes.take(k - 1));
        let r = plus_copies(p, notes.take(k - 1), starts);
        assert(q.notes =~= r.notes.push(copy_of(p, notes, starts, k - 1)));
        assert(q.notes =~= p.notes + copies(k));
        assert forall|i: int, j: int| 0 <= i < j < q.notes.len() implies (#[trigger] q.notes[i]).id
            != (#[trigger] q.notes[j]).id by {
            assert(q.notes[i] == r.notes[i]);
            if j < r.notes.len() {
                assert(q.notes[j] == r.notes[j]);
            }
        }
        assert forall|i: int| 0 <= i < q.notes.len() implies (#[trigger] q.notes[i]).id
            < q.next_id by {
            if i < r.notes.len() {
                assert(q.notes[i] == r.notes[i]);
            }
        }
    }
}

/// Changing notes in place, each keeping its identity, keeps identities unique
/// and the selection valid.
pub proof fn changing_notes_keeps_identities(p: PatternView, q: PatternView, selection: Set<u64>)
    requires
        ids_unique(p),
        selection_valid(selection, p),
        ids_of(q.notes) == ids_of(p.notes),
        q.next_id == p.next_id,
    ensures
        ids_unique(q),
        selection_valid(selection, q),
{
    assert(q.notes.len() == ids_of(q.notes).len());
    assert(p.notes.len() == ids_of(p.notes).len());
    assert forall|i: int| 0 <= i < p.notes.len() implies (#[trigger] q.notes[i]).id
        == p.notes[i].id by {
        assert(ids_of(q.notes)[i] == q.notes[i].id);
        assert(ids_of(p.notes)[i] == p.notes[i].id);
    }
    assert forall|id: u64| #[trigger] selection.contains(id) implies has_note(q, id) by {
        let i = choose|i: int| 0 <= i < p.notes.len() && (#[trigger] p.notes[i]).id == id;
        assert(q.notes[i].id == id);
    }
}

proof fn lemma_filter_unique(notes: Seq<NoteView>, selection: Set<u64>, next_id: u64)
    requires
        forall|i: int, j: int|
            0 <= i < j < notes.len() ==> (#[trigger] notes[i]).id != (#[trigger] notes[j]).id,
        forall|i: int| 0 <= i < notes.len() ==> (#[trigger] notes[i]).id < next_id,
    ensures
        ({
            let s = unselected_of(notes, selection);
            &&& forall|i: int, j: int|
                0 <= i < j < s.len() ==> (#[trigger] s[i]).id != (#[trigger] s[j]).id
            &&& forall|i: int| 0 <= i < s.len() ==> (#[trigger] s[i]).id < next_id
            &&& forall|i: int| 0 <= i < s.len() ==> notes.contains(#[trigger] s[i])
        }),
    decreases notes.len(),
{
    reveal(Seq::filter);
    if notes.len() > 0 {
        let t = notes.drop_last();
        assert forall|i: int, j: int| 0 <= i < j < t.len() implies (#[trigger] t[i]).id != (
        #[trigger] t[j]).id by {
            assert(notes[i].id != notes[j].id);
        }
        assert forall|i: int| 0 <= i < t.len() implies (#[trigger] t[i]).id < next_id by {
            assert(notes[i].id < next_id);
        }
        lemma_filter_unique(t, selection, next_id);
        let r = unselected_of(t, selection);
        let s = unselected_of(notes, selection);
        assert forall|i: int| 0 <= i < s.len() implies notes.contains(#[trigger] s[i]) by {
            if i < r.len() {
                assert(t.contains(r[i]));
                let k = t.index_of(r[i]);
                assert(notes[k] == r[i]);
            } else {
                assert(notes[notes.len() - 1] == s[i]);
            }
        }
        assert forall|i: int, j: int| 0 <= i < j < s.len() implies (#[trigger] s[i]).id != (
        #[trigger] s[j]).id by {
            if j < r.len() {
                assert(r[i].id != r[j].id);
            } else {
                assert(t.contains(r[i]));
                let k = t.index_of(r[i]);
                assert(notes[k].id != notes[notes.len() - 1].id);
            }
        }
        assert forall|i: int| 0 <= i < s.len() implies (#[trigger] s[i]).id < next_id by {
            if i < r.len() {
                assert(r[i].id < next_id);
            }
        }
    }
}

/// Deleting removes exactly the selected notes.
pub proof fn deleting_removes_exactly_the_selection(p: PatternView, selection: Set<u64>)
    requires
        ids_unique(p),
    ensures
        ({
            let q = PatternView { notes: unselected_of(p.notes, selection), ..p };
            &&& ids_unique(q)
            &&& forall|n: NoteView| #[trigger]
                q.notes.contains(n) <==> p.notes.contains(n) && !selection.contains(n.id)
        }),
{
    lemma_filter_unique(p.notes, selection, p.next_id);
    let pred = |n: NoteView| !selection.contains(n.id);
    let q = PatternView { notes: unselected_of(p.notes, selection), ..p };
    assert forall|n: NoteView| #[trigger] q.notes.contains(n) <==> p.notes.contains(n)
        && !selection.contains(n.id) by {
        if q.notes.contains(n) {
            let i = q.notes.index_of(n);
            assert(p.notes.contains(q.notes[i]));
            p.notes.lemma_filter_pred(pred, i);
        }
        if p.notes.contains(n) && !selection.contains(n.id) {
            let i = p.notes.index_of(n);
            p.notes.lemma_filter_contains(pred, i);
        }
    }
}

proof fn lemma_recording_sound(e: EditorView, p: PatternView, q: PatternView)
    requires
        sound(e, p),
        ids_unique(q),
    ensures
        forall|i: int|
            0 <= i < e.begin_edit(q).history.len() ==> ids_unique(
                #[trigger] e.begin_edit(q).history[i],
            ),
        e.begin_edit(q).wf(),
{
    let r = e.begin_edit(q);
    let kept = if e.history_pos + 1 < e.history.len() {
        e.history.take(e.history_pos + 1)
    } else {
        e.history
    };
    let longer = kept.push(q);
    assert forall|i: int| 0 <= i < longer.len() implies ids_unique(#[trigger] longer[i]) by {
        if i < kept.len() {
            assert(longer[i] == e.history[i]);
        }
    }
    assert forall|i: int| 0 <= i < r.history.len() implies ids_unique(#[trigger] r.history[i]) by {
        if longer.len() > HISTORY_LIMIT {
            assert(r.history[i] == longer[i + 1]);
        } else {
            assert(r.history[i] == longer[i]);
        }
    }
}

proof fn lemma_edit_sound(e: EditorView, p: PatternView, q: PatternView, selection: Set<u64>)
    requires
        sound(e, p),
        ids_unique(q),
        selection_valid(selection, q),
    ensures
        sound(EditorView { selection, ..e.begin_edit(p) }, q),
{
    lemma_recording_sound(e, p, p);
}

proof fn lemma_selected_in(notes: Seq<NoteView>, selection: Set<u64>)
    ensures
        selected_of(notes, selection).len() <= notes.len(),
{
    notes.lemma_filter_len(|n: NoteView| selection.contains(n.id));
}

/// Every keyboard shortcut keeps identities unique and the selection valid.
pub proof fn shortcuts_keep_the_editor_sound(
    e: EditorView,
    p: PatternView,
    s: Shortcut,
    spo: int,
    ph: nat,
)
    requires
        sound(e, p),
        s == Shortcut::Duplicate ==> p.next_id + p.notes.len() <= u64::MAX,
        s == Shortcut::Paste ==> p.next_id + e.clipboard.len() <= u64::MAX,
    ensures
        sound(e.after_shortcut(p, s), e.shortcut_pattern(p, s, spo, ph)),
{
    let q = e.shortcut_pattern(p, s, spo, ph);
    match s {
        Shortcut::Copy | Shortcut::Save | Shortcut::Nothing => {},
        Shortcut::SelectAll => {
            assert forall|id: u64| #[trigger]
                e.select_all(p).selection.contains(id) implies has_note(p, id) by {}
        },
        Shortcut::Cut => {
            let c = e.copy_selected(p);
            if !e.none_selected() {
                deleting_removes_exactly_the_selection(p, e.selection);
                lemma_edit_sound(c, p, q, Set::empty());
            }
        },
        Shortcut::Delete => {
            if !e.none_selected() {
                deleting_removes_exactly_the_selection(p, e.selection);
                lemma_edit_sound(e, p, q, Set::empty());
            }
        },
        Shortcut::Paste => {
            if e.clipboard.len() > 0 {
                let starts = paste_starts(e.clipboard, ph, p.total_steps);
                copying_adds_exactly_the_copies(p, e.clipboard, starts);
                lemma_edit_sound(e, p, q, next_ids(p, e.clipboard.len() as int));
            }
        },
        Shortcut::Duplicate => {
            if !e.none_selected() {
                let notes = selected_of(p.notes, e.selection);
                lemma_selected_in(p.notes, e.selection);
                let starts = following_starts(notes, p.total_steps);
                copying_adds_exactly_the_copies(p, notes, starts);
                lemma_edit_sound(e, p, q, next_ids(p, notes.len() as int));
            }
        },
        Shortcut::Undo => {
            let r = e.undo(p);
            assert forall|i: int| 0 <= i < r.history.len() implies ids_unique(
                #[trigger] r.history[i],
            ) by {
                if e.edited_since(p) {
                    let longer = e.history.push(p);
                    let k = if longer.len() > HISTORY_LIMIT {
                        i + 1
                    } else {
                        i
                    };
                    assert(r.history[i] == longer[k]);
                    if k < e.history.len() {
                        assert(longer[k] == e.history[k]);
                    }
                }
            }
        },
        Shortcut::Redo => {},
        _ => {
            if !e.none_selected() {
                assert(ids_of(q.notes) =~= ids_of(p.notes));
                changing_notes_keeps_identities(p, q, e.selection);
                lemma_edit_sound(e, p, q, e.selection);
            }
        },
    }
}

/// Edits of the selected notes, of the length and of the whole pattern keep
/// identities unique and the selection valid.
pub proof fn edits_keep_the_editor_sound(
    e: EditorView,
    p: PatternView,
    velocity: i32,
    label: Seq<char>,
    steps: usize,
)
    requires
        sound(e, p),
    ensures
        sound(e, with_velocity(p, e.selection, velocity)),
        sound(e, with_label(p, e.selection, label)),
        sound(e, p.set_len(steps)),
        sound(e.begin_edit(p).deselected(), PatternView { notes: Seq::empty(), ..p }),
        sound(e.begin_edit(p).deselected(), PatternView::demo()),
{
    let a = with_velocity(p, e.selection, velocity);
    assert(ids_of(a.notes) =~= ids_of(p.notes));
    changing_notes_keeps_identities(p, a, e.selection);
    let b = with_label(p, e.selection, label);
    assert(ids_of(b.notes) =~= ids_of(p.notes));
    changing_notes_keeps_identities(p, b, e.selection);
    let c = p.set_len(steps);
    assert(ids_of(c.notes) =~= ids_of(p.notes));
    changing_notes_keeps_identities(p, c, e.selection);
    lemma_edit_sound(e, p, PatternView { notes: Seq::empty(), ..p }, Set::empty());
    lemma_edit_sound(e, p, PatternView::demo(), Set::empty());
}

/// Opening, adding and deleting clips keeps identities unique and the selection
/// valid.
pub proof fn clips_keep_the_editor_sound(e: EditorView, p: PatternView, i: int)
    requires
        sound(e, p),
        e.has_active_clip(),
        0 <= i < e.clips.len(),
    ensures
        sound(e.switch_clip(p, i), e.stored(p).clips[i]),
        sound(e.add_clip(p), PatternView::empty(p.total_steps)),
        sound(e.delete_clip(p), e.pattern_after_delete(p)),
{
    let st = e.stored(p);
    assert forall|k: int| 0 <= k < st.clips.len() implies ids_unique(#[trigger] st.clips[k]) by {
        if k != e.active_clip {
            assert(st.clips[k] == e.clips[k]);
        }
    }
    lemma_recording_sound(st, p, st.clips[i]);
    let blank = PatternView::empty(p.total_steps);
    let added = EditorView {
        clips: e.clips.push(blank),
        clip_names: e.clip_names.push(numbered_clip(e.clips.len() as int)),
        ..e
    };
    assert forall|k: int| 0 <= k < added.clips.len() implies ids_unique(
        #[trigger] added.clips[k],
    ) by {
        if k < e.clips.len() {
            assert(added.clips[k] == e.clips[k]);
        }
    }
    lemma_recording_sound(added, p, blank);
    if e.clips.len() > 1 {
        let fewer = e.clips.remove(e.active_clip as int);
        assert forall|k: int| 0 <= k < fewer.len() implies ids_unique(#[trigger] fewer[k]) by {
            if k < e.active_clip {
                assert(fewer[k] == e.clips[k]);
            } else {
                assert(fewer[k] == e.clips[k + 1]);
            }
        }
        let less = EditorView {
            clips: fewer,
            clip_names: e.clip_names.remove(e.active_clip as int),
            ..e
        };
        lemma_recording_sound(less, p, e.pattern_after_delete(p));
    }
}

// ---------------------------------------------------------------------------
// Gestures
// ---------------------------------------------------------------------------

proof fn lemma_toggled_valid(selection: Set<u64>, ids: Seq<u64>, p: PatternView)
    requires
        selection_valid(selection, p),
        forall|i: int| 0 <= i < ids.len() ==> has_note(p, #[trigger] ids[i]),
    ensures
        selection_valid(toggled(selection, ids), p),
    decreases ids.len(),
{
    if ids.len() > 0 {
        assert forall|i: int| 0 <= i < ids.drop_last().len() implies has_note(
            p,
            #[trigger] ids.drop_last()[i],
        ) by {
            assert(has_note(p, ids[i]));
        }
        lemma_toggled_valid(selection, ids.drop_last(), p);
        assert(has_note(p, ids[ids.len() - 1]));
    }
}

/// Moving or resizing a group changes no identity and no note outside it.
pub proof fn dragging_a_group_keeps_the_rest(
    notes: Seq<NoteView>,
    ids: Seq<u64>,
    places: Seq<(i32, nat)>,
    extents: Seq<(nat, nat)>,
    by: Shift,
    edge: Edge,
    spo: int,
    total_steps: usize,
)
    ensures
        ids_of(moved_group(notes, ids, places, by, spo, total_steps)) == ids_of(notes),
        ids_of(
            resized_group(notes, ids, extents, edge, by.units, clip_units(total_steps)),
        ) == ids_of(notes),
        forall|i: int|
            0 <= i < notes.len() && !ids.contains((#[trigger] notes[i]).id) ==> moved_group(
                notes,
                ids,
                places,
                by,
                spo,
                total_steps,
            )[i] == notes[i] && resized_group(
                notes,
                ids,
                extents,
                edge,
                by.units,
                clip_units(total_steps),
            )[i] == notes[i],
        forall|i: int|
            0 <= i < notes.len() ==> moved_group(notes, ids, places, by, spo, total_steps)[i]
                .length_steps == (#[trigger] notes[i]).length_steps,
    decreases ids.len(),
{
    let total = clip_units(total_steps);
    if ids.len() > 0 {
        let rest = ids.drop_last();
        dragging_a_group_keeps_the_rest(
            notes,
            rest,
            places,
            extents,
            by,
            edge,
            spo,
            total_steps,
        );
        let m = moved_group(notes, rest, places, by, spo, total_steps);
        let r = resized_group(notes, rest, extents, edge, by.units, total);
        let id = ids.last();
        lemma_first_with_id_found(m, id);
        lemma_first_with_id_found(r, id);
        let m2 = moved_group(notes, ids, places, by, spo, total_steps);
        let r2 = resized_group(notes, ids, extents, edge, by.units, total);
        assert(ids_of(m).len() == m.len() && ids_of(r).len() == r.len());
        assert(ids_of(notes).len() == notes.len());
        assert(ids_of(m2) =~= ids_of(m));
        assert(ids_of(r2) =~= ids_of(r));
        assert forall|i: int|
            0 <= i < notes.len() && !ids.contains((#[trigger] notes[i]).id) implies m2[i]
            == notes[i] && r2[i] == notes[i] by {
            assert(!rest.contains(notes[i].id)) by {
                if rest.contains(notes[i].id) {
                    let k = rest.index_of(notes[i].id);
                    assert(ids[k] == notes[i].id);
                }
            }
            assert(ids[ids.len() - 1] == id);
            assert(m[i].id == notes[i].id && r[i].id == notes[i].id);
        }
        assert forall|i: int| 0 <= i < notes.len() implies m2[i].length_steps == (
        #[trigger] notes[i]).length_steps by {
            assert(m[i].length_steps == notes[i].length_steps);
        }
    } else {
        assert(ids_of(moved_group(notes, ids, places, by, spo, total_steps)) =~= ids_of(notes));
    }
}

/// Gestures keep identities unique and the selection valid, where the notes
/// they hit are notes of the pattern.
pub proof fn gestures_keep_the_editor_sound(
    e: EditorView,
    p: PatternView,
    hit: Option<usize>,
    hits: Seq<u64>,
    id: u64,
    edge: Option<Edge>,
    pitch: i32,
    step: i32,
    spo: i32,
    on: bool,
)
    requires
        sound(e, p),
        p.next_id < u64::MAX,
        p.next_id + p.notes.len() <= u64::MAX,
        hit matches Some(i) ==> i < p.notes.len(),
        forall|i: int| 0 <= i < hits.len() ==> has_note(p, #[trigger] hits[i]),
        has_note(p, id),
    ensures
        sound(e.erase(p, on, hit), erased(p, on, hit)),
        sound(e.grid_drag_stopped(p, hits), e.drawn_pattern(p)),
        sound(e.grid_clicked(p, on), e.clicked_pattern(p, pitch, step)),
        sound(e.note_clicked(p, id, on), e.note_clicked_pattern(p, id, on)),
        sound(e.note_drag_started(p, id, edge, on), p),
        ({
            let q = e.note_dragged_pattern(p, pitch, step, spo);
            sound(e.note_dragged(q), q)
        }),
{
    lemma_erase_sound(e, p, on, hit);
    lemma_recording_sound(e, p, p);
    // drawing and rubber band
    match e.drag {
        Some(DragView::Draw { pitch, start_step, cur_step }) => {
            let q = e.drawn_pattern(p);
            lemma_added(p, q, Set::empty());
        },
        Some(DragView::Marquee { .. }) => {
            lemma_toggled_valid(e.selection, hits, p);
        },
        _ => {},
    }
    // click on the grid
    let q = e.clicked_pattern(p, pitch, step);
    lemma_added(p, q, Set::empty());
    lemma_added(p, q, e.selection);
    // click on a note
    let group = selected_of(p.notes, e.selection);
    lemma_selected_in(p.notes, e.selection);
    copying_adds_exactly_the_copies(p, group, same_starts(group));
    // drag of notes
    match e.drag {
        Some(DragView::NoteMove { ids, orig, .. }) => {
            dragging_a_group_keeps_the_rest(
                p.notes,
                ids,
                orig,
                seq![],
                Shift { pitch: pitch as int, units: e.drag_units(step) },
                Edge::Left,
                spo as int,
                p.total_steps,
            );
            changing_notes_keeps_identities(
                p,
                e.note_dragged_pattern(p, pitch, step, spo),
                e.selection,
            );
        },
        Some(DragView::NoteResize { ids, orig, edge, .. }) => {
            dragging_a_group_keeps_the_rest(
                p.notes,
                ids,
                seq![],
                orig,
                Shift { pitch: 0, units: e.drag_units(step) },
                edge,
                spo as int,
                p.total_steps,
            );
            changing_notes_keeps_identities(
                p,
                e.note_dragged_pattern(p, pitch, step, spo),
                e.selection,
            );
        },
        _ => {},
    }
}

proof fn lemma_added(p: PatternView, q: PatternView, selection: Set<u64>)
    requires
        ids_unique(p),
        p.next_id < u64::MAX,
        selection_valid(selection, p),
        exists|n: NoteView| q == #[trigger] p.plus(n),
    ensures
        ids_unique(q),
        selection_valid(selection.insert(p.next_id), q),
{
    let n = choose|n: NoteView| q == #[trigger] p.plus(n);
    a_new_note_is_unique(p, n, selection);
}

proof fn lemma_erase_sound(e: EditorView, p: PatternView, on: bool, hit: Option<usize>)
    requires
        sound(e, p),
        hit matches Some(i) ==> i < p.notes.len(),
    ensures
        sound(e.erase(p, on, hit), erased(p, on, hit)),
{
    lemma_recording_sound(e, p, p);
    if let Some(h) = hit {
        if on {
            let q = erased(p, on, hit);
            let r = e.erase(p, on, hit);
            assert forall|i: int| 0 <= i < q.notes.len() implies #[trigger] q.notes[i]
                == p.notes[if i < h {
                i
            } else {
                i + 1
            }] by {}
            assert forall|id: u64| #[trigger] r.selection.contains(id) implies has_note(q, id) by {
                assert(e.selection.contains(id));
                let i = choose|i: int| 0 <= i < p.notes.len() && (#[trigger] p.notes[i]).id == id;
                assert(i != h);
                if i < h {
                    assert(q.notes[i].id == id);
                } else {
                    assert(q.notes[i - 1].id == id);
                }
            }
        }
    }
}

/// The last of the first `m` identities that is `id`, or -1.
pub open spec fn last_of(ids: Seq<u64>, m: int, id: u64) -> int
    decreases m,
{
    if m <= 0 {
        -1
    } else if ids[m - 1] == id {
        m - 1
    } else {
        last_of(ids, m - 1, id)
    }
}

/// How many entries two lists have in common.
pub open spec fn common_len(a: int, b: int) -> int {
    if a < b {
        a
    } else {
        b
    }
}

pub(crate) proof fn lemma_moved_at(
    notes: Seq<NoteView>,
    ids: Seq<u64>,
    orig: Seq<(i32, nat)>,
    by: Shift,
    spo: int,
    total_steps: usize,
    i: int,
)
    requires
        0 <= i < notes.len(),
    ensures
        ({
            let r = moved_group(notes, ids, orig, by, spo, total_steps);
            let k = last_of(ids, common_len(ids.len() as int, orig.len() as int), notes[i].id);
            &&& r.len() == notes.len()
            &&& r[i] == if leads(notes, i) && k >= 0 {
                moved_note(notes[i], orig[k], by, spo, total_steps)
            } else {
                notes[i]
            }
        }),
    decreases ids.len(),
{
    let m = common_len(ids.len() as int, orig.len() as int);
    if m > 0 {
        let rest = ids.drop_last();
        lemma_moved_at(notes, rest, orig, by, spo, total_steps, i);
        lemma_last_of_prefix(
            ids,
            rest,
            common_len(rest.len() as int, orig.len() as int),
            notes[i].id,
        );
        if ids.len() <= orig.len() {
            let r = moved_group(notes, rest, orig, by, spo, total_steps);
            dragging_a_group_keeps_the_rest(
                notes,
                rest,
                orig,
                seq![],
                by,
                Edge::Left,
                spo,
                total_steps,
            );
            lemma_ids_equal(r, notes);
            let id = ids.last();
            lemma_same_ids(r, notes, id);
            lemma_first_with_id_found(notes, id);
            assert(ids[m - 1] == id);
        }
    }
}

pub(crate) proof fn lemma_resized_at(
    notes: Seq<NoteView>,
    ids: Seq<u64>,
    orig: Seq<(nat, nat)>,
    edge: Edge,
    by: int,
    total_steps: usize,
    i: int,
)
    requires
        0 <= i < notes.len(),
    ensures
        ({
            let total = clip_units(total_steps);
            let r = resized_group(notes, ids, orig, edge, by, total);
            let k = last_of(ids, common_len(ids.len() as int, orig.len() as int), notes[i].id);
            &&& r.len() == notes.len()
            &&& r[i] == if leads(notes, i) && k >= 0 {
                resized_note(notes[i], orig[k], edge, by, total)
            } else {
                notes[i]
            }
        }),
    decreases ids.len(),
{
    let total = clip_units(total_steps);
    let m = common_len(ids.len() as int, orig.len() as int);
    if m > 0 {
        let rest = ids.drop_last();
        lemma_resized_at(notes, rest, orig, edge, by, total_steps, i);
        lemma_last_of_prefix(
            ids,
            rest,
            common_len(rest.len() as int, orig.len() as int),
            notes[i].id,
        );
        if ids.len() <= orig.len() {
            let r = resized_group(notes, rest, orig, edge, by, total);
            dragging_a_group_keeps_the_rest(
                notes,
                rest,
                seq![],
                orig,
                Shift { pitch: 0, units: by },
                edge,
                0,
                total_steps,
            );
            lemma_ids_equal(r, notes);
            let id = ids.last();
            lemma_same_ids(r, notes, id);
            lemma_first_with_id_found(notes, id);
            assert(ids[m - 1] == id);
        }
    }
}

proof fn lemma_last_of_prefix(ids: Seq<u64>, rest: Seq<u64>, m: int, id: u64)
    requires
        m <= rest.len(),
        rest.len() <= ids.len(),
        forall|k: int| 0 <= k < rest.len() ==> #[trigger] rest[k] == ids[k],
    ensures
        last_of(ids, m, id) == last_of(rest, m, id),
        last_of(ids, m, id) < m || m <= 0,
    decreases m,
{
    if m > 0 {
        assert(rest[m - 1] == ids[m - 1]);
        lemma_last_of_prefix(ids, rest, m - 1, id);
    }
}

proof fn lemma_ids_equal(a: Seq<NoteView>, b: Seq<NoteView>)
    requires
        ids_of(a) == ids_of(b),
    ensures
        a.len() == b.len(),
        forall|i: int| 0 <= i < a.len() ==> (#[trigger] a[i]).id == b[i].id,
{
    assert(ids_of(a).len() == a.len());
    assert(ids_of(b).len() == b.len());
    assert forall|i: int| 0 <= i < a.len() implies (#[trigger] a[i]).id == b[i].id by {
        assert(ids_of(a)[i] == a[i].id);
        assert(ids_of(b)[i] == b[i].id);
    }
}

/// A drag counts from where it started: however the pointer got there, only the
/// distance from the start decides where the notes are.
pub proof fn a_drag_counts_from_its_start(
    notes: Seq<NoteView>,
    ids: Seq<u64>,
    places: Seq<(i32, nat)>,
    extents: Seq<(nat, nat)>,
    edge: Edge,
    first: Shift,
    by: Shift,
    spo: int,
    total_steps: usize,
)
    ensures
        moved_group(
            moved_group(notes, ids, places, first, spo, total_steps),
            ids,
            places,
            by,
            spo,
            total_steps,
        ) == moved_group(notes, ids, places, by, spo, total_steps),
        resized_group(
            resized_group(notes, ids, extents, edge, first.units, clip_units(total_steps)),
            ids,
            extents,
            edge,
            by.units,
            clip_units(total_steps),
        ) == resized_group(notes, ids, extents, edge, by.units, clip_units(total_steps)),
{
    let total = clip_units(total_steps);
    let m = moved_group(notes, ids, places, first, spo, total_steps);
    let r = resized_group(notes, ids, extents, edge, first.units, total);
    dragging_a_group_keeps_the_rest(notes, ids, places, extents, first, edge, spo, total_steps);
    dragging_a_group_keeps_the_rest(notes, ids, places, extents, by, edge, spo, total_steps);
    dragging_a_group_keeps_the_rest(m, ids, places, extents, by, edge, spo, total_steps);
    dragging_a_group_keeps_the_rest(r, ids, places, extents, by, edge, spo, total_steps);
    lemma_ids_equal(m, notes);
    lemma_ids_equal(r, notes);
    let m1 = moved_group(notes, ids, places, by, spo, total_steps);
    let m2 = moved_group(m, ids, places, by, spo, total_steps);
    let r1 = resized_group(notes, ids, extents, edge, by.units, total);
    let r2 = resized_group(r, ids, extents, edge, by.units, total);
    lemma_ids_equal(m1, notes);
    lemma_ids_equal(m2, m);
    lemma_ids_equal(r1, notes);
    lemma_ids_equal(r2, r);
    assert forall|i: int| 0 <= i < notes.len() implies #[trigger] m2[i] == m1[i] by {
        lemma_moved_at(notes, ids, places, first, spo, total_steps, i);
        lemma_moved_at(notes, ids, places, by, spo, total_steps, i);
        lemma_moved_at(m, ids, places, by, spo, total_steps, i);
        lemma_same_ids(m, notes, notes[i].id);
        assert(m[i].id == notes[i].id);
    }
    assert forall|i: int| 0 <= i < notes.len() implies #[trigger] r2[i] == r1[i] by {
        lemma_resized_at(notes, ids, extents, edge, first.units, total_steps, i);
        lemma_resized_at(notes, ids, extents, edge, by.units, total_steps, i);
        lemma_resized_at(r, ids, extents, edge, by.units, total_steps, i);
        lemma_same_ids(r, notes, notes[i].id);
        assert(r[i].id == notes[i].id);
    }
    assert(m2 =~= m1);
    assert(r2 =~= r1);
}

/// A moved note starts no later than the last step and stays in the range of
/// pitches that a drag can reach; its length, velocity and label stay.
pub proof fn moved_notes_stay_in_range(
    n: NoteView,
    orig: (i32, nat),
    by: Shift,
    spo: int,
    total_steps: usize,
)
    requires
        0 <= spo <= 0x1000_0000,
    ensures
        ({
            let r = moved_note(n, orig, by, spo, total_steps);
            &&& r.start_step <= last_step_start(total_steps)
            &&& -2 * spo <= r.pitch_index <= 7 * spo
            &&& r.length_steps == n.length_steps
            &&& r.velocity == n.velocity
            &&& r.label == n.label
            &&& r.id == n.id
        }),
{
}

/// A resized note stays at least a step long. Its right edge moves alone and
/// stays in the clip; its left edge moves alone, where the note reached no
/// further than the clip and was at least a step long.
pub proof fn resized_notes_stay_in_the_clip(
    n: NoteView,
    orig: (nat, nat),
    edge: Edge,
    by: int,
    total_steps: usize,
)
    requires
        orig.0 + orig.1 <= clip_units(total_steps),
        orig.1 >= UNITS_PER_STEP,
    ensures
        ({
            let total = clip_units(total_steps);
            let r = resized_note(n, orig, edge, by, total);
            &&& r.length_steps >= UNITS_PER_STEP
            &&& edge == Edge::Right ==> r.start_step == n.start_step && orig.0 + r.length_steps
                <= total
            &&& edge == Edge::Left ==> end_of(r) == orig.0 + orig.1
            &&& r.pitch_index == n.pitch_index
            &&& r.id == n.id
        }),
{
}

// ---------------------------------------------------------------------------
// Pasting
// ---------------------------------------------------------------------------

/// The earliest note of the clipboard goes to the playhead, and the others keep
/// their distance to it, as far as the clip reaches.
pub proof fn pasting_starts_at_the_playhead(clip: Seq<NoteView>, ph: nat, total_steps: usize)
    requires
        clip.len() > 0,
        ph <= last_step_start(total_steps),
    ensures
        exists|i: int|
            0 <= i < clip.len() && (#[trigger] clip[i]).start_step == first_start(
                clip,
            ) && paste_starts(clip, ph, total_steps)[i] == ph,
        forall|i: int|
            0 <= i < clip.len() ==> {
                let moved = (#[trigger] clip[i]).start_step - first_start(clip)
                    + ph;
                &&& moved >= ph
                &&& moved <= last_step_start(total_steps) ==> paste_starts(
                    clip,
                    ph,
                    total_steps,
                )[i] == moved
            },
{
    lemma_first_start(clip);
    let i = choose|i: int|
        0 <= i < clip.len() && (#[trigger] clip[i]).start_step == first_start(
            clip,
        );
    assert(paste_starts(clip, ph, total_steps)[i] == ph);
}

pub(crate) proof fn lemma_first_start(clip: Seq<NoteView>)
    requires
        clip.len() > 0,
    ensures
        exists|i: int|
            0 <= i < clip.len() && (#[trigger] clip[i]).start_step == first_start(
                clip,
            ),
        forall|i: int|
            0 <= i < clip.len() ==> (#[trigger] clip[i]).start_step
                >= first_start(clip),
    decreases clip.len(),
{
    if clip.len() == 1 {
        assert(clip[0].start_step == first_start(clip));
    } else {
        let t = clip.drop_last();
        lemma_first_start(t);
        let i = choose|i: int|
            0 <= i < t.len() && (#[trigger] t[i]).start_step == first_start(t);
        assert(clip[i] == t[i]);
        assert(clip[clip.len() - 1] == clip.last());
        assert forall|j: int| 0 <= j < clip.len() implies (#[trigger] clip[j]).start_step
            >= first_start(clip) by {
            if j < t.len() {
                assert(t[j] == clip[j]);
            }
        }
    }
}

} // verus!
