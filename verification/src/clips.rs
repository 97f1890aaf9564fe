//! The clips of a project: several patterns, one of them being edited.
use vstd::prelude::*;

use crate::pattern::{Note, Pattern};
use crate::pianoroll::EditorState;
use crate::text::push_decimal;
#[allow(unused_imports)]
use crate::pattern::{pattern_views, PatternView};
#[allow(unused_imports)]
use crate::pianoroll::EditorView;
#[allow(unused_imports)]
use crate::text::{decimal, text_views};

verus! {

broadcast use vstd::std_specs::hash::group_hash_axioms;

/// The name that clip number `i` gets when it has no other.
pub open spec fn numbered_clip(i: int) -> Seq<char> {
    "Clip "@ + decimal(i as nat)
}

/// The name that clip number `i` gets when it has no other.
pub fn clip_number(i: usize) -> (r: String)
    ensures
        r@ == numbered_clip(i as int),
{
    let mut s = String::from_str("Clip ");
    push_decimal(&mut s, i as u128);
    s
}

/// Copies a list of patterns.
pub fn clone_patterns(v: &Vec<Pattern>) -> (r: Vec<Pattern>)
    ensures
        pattern_views(r@) == pattern_views(v@),
{
    let mut r: Vec<Pattern> = Vec::new();
    for i in 0..v.len()
        invariant
            r.len() == i,
            forall|j: int| 0 <= j < i ==> (#[trigger] r[j])@ == v[j]@,
    {
        r.push(v[i].clone());
    }
    assert(pattern_views(r@) =~= pattern_views(v@));
    r
}

/// Copies a list of texts.
pub fn clone_texts(v: &Vec<String>) -> (r: Vec<String>)
    ensures
        text_views(r@) == text_views(v@),
{
    let mut r: Vec<String> = Vec::new();
    for i in 0..v.len()
        invariant
            r.len() == i,
            forall|j: int| 0 <= j < i ==> (#[trigger] r[j])@ == v[j]@,
    {
        r.push(v[i].clone());
    }
    assert(text_views(r@) =~= text_views(v@));
    r
}

/// Whether two notes are the same in every field.
fn same_note(a: &Note, b: &Note) -> (r: bool)
    ensures
        r == (a@ == b@),
{
    a.id == b.id && a.pitch_index == b.pitch_index && a.start_step == b.start_step
        && a.length_steps == b.length_steps && a.velocity == b.velocity && a.label == b.label
}

/// Whether two patterns are the same in every field.
pub fn same_pattern(a: &Pattern, b: &Pattern) -> (r: bool)
    ensures
        r == (a@ == b@),
{
    if a.total_steps != b.total_steps || a.beats_per_bar != b.beats_per_bar || a.beat_unit
        != b.beat_unit || a.next_id != b.next_id || a.notes.len() != b.notes.len() {
        assert(a@.notes.len() == a.notes.len() && b@.notes.len() == b.notes.len());
        return false;
    }
    for i in 0..a.notes.len()
        invariant
            a.notes.len() == b.notes.len(),
            forall|j: int| 0 <= j < i ==> #[trigger] a@.notes[j] == b@.notes[j],
    {
        if !same_note(&a.notes[i], &b.notes[i]) {
            assert(a@.notes[i as int] != b@.notes[i as int]);
            return false;
        }
        assert(a@.notes[i as int] == b@.notes[i as int]);
    }
    assert(a@.notes =~= b@.notes);
    true
}

impl EditorView {
    /// The active clip exists.
    pub open spec fn has_active_clip(self) -> bool {
        self.active_clip < self.clips.len()
    }

    /// The live pattern stored in the active clip.
    pub open spec fn stored(self, p: PatternView) -> EditorView {
        EditorView { clips: self.clips.update(self.active_clip as int, p), ..self }
    }

    /// Another clip on the editor, with nothing selected, as an undo point.
    pub open spec fn opened(self, i: int, q: PatternView) -> EditorView {
        EditorView {
            active_clip: i as usize,
            selection: Set::empty(),
            ..self.begin_edit(q)
        }
    }

    /// After switching to clip `i`: the live pattern is stored first.
    pub open spec fn switch_clip(self, p: PatternView, i: int) -> EditorView {
        self.stored(p).opened(i, self.stored(p).clips[i])
    }

    /// After adding a clip.
    pub open spec fn add_clip(self, p: PatternView) -> EditorView {
        let q = PatternView::empty(p.total_steps);
        EditorView {
            clips: self.clips.push(q),
            clip_names: self.clip_names.push(numbered_clip(self.clips.len() as int)),
            ..self
        }.opened(self.clips.len() as int, q)
    }

    /// The clip that is active once the active one is gone.
    pub open spec fn clip_after_delete(self) -> int {
        if self.active_clip < self.clips.len() - 1 {
            self.active_clip as int
        } else {
            self.clips.len() - 2
        }
    }

    /// The pattern that is active once the active clip is gone; the only clip
    /// stays.
    pub open spec fn pattern_after_delete(self, p: PatternView) -> PatternView {
        if self.clips.len() > 1 {
            self.clips.remove(self.active_clip as int)[self.clip_after_delete()]
        } else {
            p
        }
    }

    /// After deleting the active clip; the only clip stays.
    pub open spec fn delete_clip(self, p: PatternView) -> EditorView {
        if self.clips.len() > 1 {
            EditorView {
                clips: self.clips.remove(self.active_clip as int),
                clip_names: self.clip_names.remove(self.active_clip as int),
                ..self
            }.opened(self.clip_after_delete(), self.pattern_after_delete(p))
        } else {
            self
        }
    }

    /// The name shown for clip `i`.
    pub open spec fn clip_name(self, i: int) -> Seq<char> {
        if i < self.clip_names.len() {
            self.clip_names[i]
        } else {
            numbered_clip(i)
        }
    }

    /// After renaming the active clip.
    pub open spec fn rename_clip(self, name: Seq<char>) -> EditorView {
        if self.active_clip < self.clip_names.len() {
            EditorView { clip_names: self.clip_names.update(self.active_clip as int, name), ..self }
        } else {
            self
        }
    }

    /// A single clip that holds `p`.
    pub open spec fn single_clip(self, p: PatternView) -> EditorView {
        EditorView {
            clips: seq![p],
            clip_names: seq![numbered_clip(0)],
            active_clip: 0,
            ..self
        }
    }
}

impl EditorState {
    /// An editor on one clip, ready to undo back to it.
    pub fn start(initial: &Pattern) -> (r: EditorState)
        ensures
            r@ == EditorView::fresh().single_clip(initial@).begin_edit(initial@),
            r@.wf(),
            r@.has_active_clip(),
    {
        let mut e = EditorState::default();
        e.set_single_clip(initial);
        e.begin_edit(initial);
        e
    }

    /// Keep one clip only, which holds `p`.
    pub fn set_single_clip(&mut self, p: &Pattern)
        ensures
            final(self)@ == old(self)@.single_clip(p@),
            old(self)@.wf() ==> final(self)@.wf(),
    {
        let mut clips: Vec<Pattern> = Vec::new();
        clips.push(p.clone());
        let mut names: Vec<String> = Vec::new();
        names.push(clip_number(0));
        self.clips = clips;
        self.clip_names = names;
        self.active_clip = 0;
        assert(self@ =~= old(self)@.single_clip(p@));
    }

    /// The name shown for a clip.
    pub fn clip_name(&self, i: usize) -> (r: String)
        ensures
            r@ == self@.clip_name(i as int),
    {
        if i < self.clip_names.len() {
            self.clip_names[i].clone()
        } else {
            clip_number(i)
        }
    }

    /// Rename the active clip.
    pub fn rename_clip(&mut self, name: String)
        ensures
            final(self)@ == old(self)@.rename_clip(name@),
            old(self)@.wf() ==> final(self)@.wf(),
    {
        if self.active_clip < self.clip_names.len() {
            self.clip_names.set(self.active_clip, name);
        }
        assert(self@ =~= old(self)@.rename_clip(name@));
    }

    /// Store the live pattern in the active clip.
    pub fn store_clip(&mut self, pat: &Pattern)
        requires
            old(self)@.has_active_clip(),
        ensures
            final(self)@ == old(self)@.stored(pat@),
            old(self)@.wf() ==> final(self)@.wf(),
    {
        self.clips.set(self.active_clip, pat.clone());
        assert(self@ =~= old(self)@.stored(pat@));
    }

    /// Switch to another clip: store the live pattern, then open the clip.
    pub fn switch_clip(&mut self, pat: &mut Pattern, i: usize)
        requires
            old(self)@.wf(),
            old(self)@.has_active_clip(),
            i < old(self)@.clips.len(),
        ensures
            final(self)@ == old(self)@.switch_clip(old(pat)@, i as int),
            final(pat)@ == old(self)@.stored(old(pat)@).clips[i as int],
            final(self)@.wf(),
            final(self)@.has_active_clip(),
    {
        self.store_clip(pat);
        assert(self.clips.len() == self@.clips.len());
        self.active_clip = i;
        *pat = self.clips[i].clone();
        self.selection.clear();
        self.begin_edit(pat);
        assert(self@ =~= old(self)@.switch_clip(old(pat)@, i as int));
    }

    /// Add an empty clip as long as the current one, and open it.
    pub fn add_clip(&mut self, pat: &mut Pattern)
        requires
            old(self)@.wf(),
        ensures
            final(self)@ == old(self)@.add_clip(old(pat)@),
            final(pat)@ == PatternView::empty(old(pat)@.total_steps),
            final(self)@.wf(),
            final(self)@.has_active_clip(),
    {
        let n = self.clips.len();
        let fresh = Pattern::empty(pat.total_steps);
        self.clips.push(fresh.clone());
        self.clip_names.push(clip_number(n));
        self.active_clip = n;
        *pat = fresh;
        self.selection.clear();
        self.begin_edit(pat);
        assert(self@ =~= old(self)@.add_clip(old(pat)@));
    }

    /// Delete the current clip and open its neighbour; the only clip stays.
    pub fn delete_clip(&mut self, pat: &mut Pattern)
        requires
            old(self)@.wf(),
            old(self)@.has_active_clip(),
            old(self)@.active_clip < old(self)@.clip_names.len(),
        ensures
            final(self)@ == old(self)@.delete_clip(old(pat)@),
            final(pat)@ == old(self)@.pattern_after_delete(old(pat)@),
            final(self)@.wf(),
            final(self)@.has_active_clip(),
    {
        if self.clips.len() > 1 {
            let ghost before = self@;
            let _ = self.clips.remove(self.active_clip);
            let _ = self.clip_names.remove(self.active_clip);
            assert(self@.clips =~= before.clips.remove(before.active_clip as int));
            assert(self@.clip_names =~= before.clip_names.remove(before.active_clip as int));
            if self.active_clip >= self.clips.len() {
                self.active_clip = self.clips.len() - 1;
            }
            *pat = self.clips[self.active_clip].clone();
            assert(pat@ == self@.clips[self.active_clip as int]);
            self.selection.clear();
            self.begin_edit(pat);
            assert(self@ =~= before.delete_clip(old(pat)@));
        }
    }
}

} // verus!
