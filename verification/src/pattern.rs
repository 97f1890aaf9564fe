//! Editable pattern data.
//!
//! The piano-roll editor mutates a `Pattern`; the transport turns it into note
//! events. Each `Note` carries a stable unique `id` so the editor can hold a
//! selection set that stays valid across add/remove/move operations.
use vstd::prelude::*;

use crate::grid::{Steps, STEPS_PER_BEAT, UNITS_PER_STEP};
use crate::level::DEFAULT_VELOCITY;
#[allow(unused_imports)]
use crate::grid::max_units;

verus! {

/// Beats in the demo clip, one note on each.
pub const DEMO_BEATS: usize = 8;

/// A note in the pattern. `pitch_index` is the uniform degree of the tuning
/// (0 == reference C4).
#[derive(Debug)]
pub struct Note {
    /// Stable identity, used by the editor for selections.
    pub id: u64,
    pub pitch_index: i32,
    /// Where the note starts.
    pub start_step: Steps,
    /// How long the note lasts.
    pub length_steps: Steps,
    /// How hard the note is played, a level.
    pub velocity: i32,
    /// Optional user label; empty means "show the auto note name".
    pub label: String,
}

/// What a `Note` is, with its times in grid units and its label as characters.
pub struct NoteView {
    pub id: u64,
    pub pitch_index: i32,
    pub start_step: nat,
    pub length_steps: nat,
    pub velocity: i32,
    pub label: Seq<char>,
}

/// The editable loop: a list of notes plus its total length in steps.
#[derive(Debug)]
pub struct Pattern {
    pub notes: Vec<Note>,
    /// Length of the loop, in whole steps.
    pub total_steps: usize,
    /// Time signature: beats in a bar.
    pub beats_per_bar: u32,
    /// Time signature: the note value that counts as one beat.
    pub beat_unit: u32,
    /// The identity that the next note gets.
    pub next_id: u64,
}

/// What a `Pattern` is.
#[verifier::ext_equal]
pub struct PatternView {
    pub notes: Seq<NoteView>,
    pub total_steps: usize,
    pub beats_per_bar: u32,
    pub beat_unit: u32,
    pub next_id: u64,
}

impl View for Note {
    type V = NoteView;

    open spec fn view(&self) -> NoteView {
        NoteView {
            id: self.id,
            pitch_index: self.pitch_index,
            start_step: self.start_step@,
            length_steps: self.length_steps@,
            velocity: self.velocity,
            label: self.label@,
        }
    }
}

/// The contents of a list of notes.
pub open spec fn note_views(s: Seq<Note>) -> Seq<NoteView> {
    Seq::new(s.len(), |i: int| s[i]@)
}

impl View for Pattern {
    type V = PatternView;

    open spec fn view(&self) -> PatternView {
        PatternView {
            notes: note_views(self.notes@),
            total_steps: self.total_steps,
            beats_per_bar: self.beats_per_bar,
            beat_unit: self.beat_unit,
            next_id: self.next_id,
        }
    }
}

/// The contents of a list of patterns.
pub open spec fn pattern_views(s: Seq<Pattern>) -> Seq<PatternView> {
    Seq::new(s.len(), |i: int| s[i]@)
}

impl Clone for Note {
    fn clone(&self) -> (r: Note)
        ensures
            r@ == self@,
    {
        Note {
            id: self.id,
            pitch_index: self.pitch_index,
            start_step: self.start_step,
            length_steps: self.length_steps,
            velocity: self.velocity,
            label: self.label.clone(),
        }
    }
}

/// Copies a list of notes.
pub fn clone_notes(v: &Vec<Note>) -> (r: Vec<Note>)
    ensures
        note_views(r@) == note_views(v@),
{
    let mut r: Vec<Note> = Vec::new();
    for i in 0..v.len()
        invariant
            r.len() == i,
            forall|j: int| 0 <= j < i ==> (#[trigger] r[j])@ == v[j]@,
    {
        r.push(v[i].clone());
    }
    assert(note_views(r@) =~= note_views(v@));
    r
}

impl Clone for Pattern {
    fn clone(&self) -> (r: Pattern)
        ensures
            r@ == self@,
    {
        Pattern {
            notes: clone_notes(&self.notes),
            total_steps: self.total_steps,
            beats_per_bar: self.beats_per_bar,
            beat_unit: self.beat_unit,
            next_id: self.next_id,
        }
    }
}

/// The end of a note, in grid units.
pub open spec fn end_of(n: NoteView) -> int {
    n.start_step as int + n.length_steps as int
}

/// No two notes share an identity, and new identities are above all of them.
pub open spec fn ids_unique(p: PatternView) -> bool {
    &&& forall|i: int, j: int|
        0 <= i < j < p.notes.len() ==> (#[trigger] p.notes[i]).id != (#[trigger] p.notes[j]).id
    &&& forall|i: int| 0 <= i < p.notes.len() ==> (#[trigger] p.notes[i]).id < p.next_id
}

/// The length of a note in the editor: never shorter than one step.
pub open spec fn at_least_one_step(units: nat) -> nat {
    if units < UNITS_PER_STEP {
        UNITS_PER_STEP as nat
    } else {
        units
    }
}

/// The index of the first note with identity `id`, or the number of notes.
pub open spec fn first_with_id(notes: Seq<NoteView>, id: u64) -> int
    decreases notes.len(),
{
    if notes.len() == 0 {
        0
    } else if notes[0].id == id {
        0
    } else {
        1 + first_with_id(notes.drop_first(), id)
    }
}

/// A note that is trimmed to a clip of `total` units: one that starts past the
/// end moves to the last step, one that reaches past the end stops there, and
/// none is shorter than a step.
pub open spec fn trimmed(n: NoteView, total: int) -> NoteView {
    if n.start_step >= total {
        NoteView {
            start_step: (total - UNITS_PER_STEP) as nat,
            length_steps: UNITS_PER_STEP as nat,
            ..n
        }
    } else {
        let end = if end_of(n) < total {
            end_of(n)
        } else {
            total
        };
        let least = n.start_step + UNITS_PER_STEP;
        NoteView {
            length_steps: ((if end < least {
                least
            } else {
                end
            }) - n.start_step) as nat,
            ..n
        }
    }
}

/// At least one step.
pub open spec fn at_least_one(steps: usize) -> usize {
    if steps < 1 {
        1
    } else {
        steps
    }
}

impl PatternView {
    /// An empty pattern of the given length.
    pub open spec fn empty(total_steps: usize) -> PatternView {
        PatternView {
            notes: Seq::empty(),
            total_steps: at_least_one(total_steps),
            beats_per_bar: 4,
            beat_unit: 4,
            next_id: 0,
        }
    }

    /// The starter melody.
    pub open spec fn demo() -> PatternView {
        PatternView {
            notes: demo_notes(),
            next_id: DEMO_BEATS as u64,
            ..PatternView::empty((DEMO_BEATS * STEPS_PER_BEAT) as usize)
        }
    }

    /// The pattern with one more note, which gets the next identity.
    pub open spec fn plus(self, n: NoteView) -> PatternView {
        PatternView {
            notes: self.notes.push(NoteView { id: self.next_id, ..n }),
            next_id: (self.next_id + 1) as u64,
            ..self
        }
    }

    /// The pattern with a note drawn in the editor.
    pub open spec fn add_note(self, pitch: i32, start: nat, length: nat, velocity: i32) -> PatternView {
        self.plus(
            NoteView {
                id: 0,
                pitch_index: pitch,
                start_step: start,
                length_steps: at_least_one_step(length),
                velocity,
                label: Seq::empty(),
            },
        )
    }

    /// The pattern with a copy of `src` at another place.
    pub open spec fn duplicate(self, src: NoteView, start: nat, length: nat) -> PatternView {
        self.plus(
            NoteView { start_step: start, length_steps: at_least_one_step(length), ..src },
        )
    }

    /// The pattern with note `i` replaced.
    pub open spec fn with_note(self, i: int, n: NoteView) -> PatternView {
        PatternView { notes: self.notes.update(i, n), ..self }
    }

    /// The pattern with the label of note `id` set, where there is such a note.
    pub open spec fn set_label(self, id: u64, label: Seq<char>) -> PatternView {
        let i = first_with_id(self.notes, id);
        if i < self.notes.len() {
            self.with_note(i, NoteView { label, ..self.notes[i] })
        } else {
            self
        }
    }

    /// The pattern with another length and its notes trimmed to it.
    pub open spec fn set_len(self, steps: usize) -> PatternView {
        let st = at_least_one(steps);
        PatternView {
            notes: Seq::new(
                self.notes.len(),
                |i: int| trimmed(self.notes[i], st * UNITS_PER_STEP),
            ),
            total_steps: st,
            ..self
        }
    }

    /// The length of the loop in grid units.
    pub open spec fn total_units(self) -> int {
        self.total_steps * UNITS_PER_STEP
    }
}

/// The pitches of the demo melody.
pub open spec fn demo_pitches() -> Seq<i32> {
    seq![9, 12, 16, 12, 9, 7, 4, 0]
}

/// The demo melody: one note per beat, each a beat long.
pub open spec fn demo_notes() -> Seq<NoteView> {
    Seq::new(
        DEMO_BEATS as nat,
        |i: int|
            NoteView {
                id: i as u64,
                pitch_index: demo_pitches()[i],
                start_step: (i * STEPS_PER_BEAT * UNITS_PER_STEP) as nat,
                length_steps: (STEPS_PER_BEAT * UNITS_PER_STEP) as nat,
                velocity: DEFAULT_VELOCITY,
                label: Seq::empty(),
            },
    )
}

pub proof fn lemma_first_with_id(notes: Seq<NoteView>, id: u64, i: int)
    requires
        0 <= i <= notes.len(),
        forall|j: int| 0 <= j < i ==> (#[trigger] notes[j]).id != id,
        i < notes.len() ==> notes[i].id == id,
    ensures
        first_with_id(notes, id) == i,
    decreases notes.len(),
{
    if i > 0 {
        assert(notes[0].id != id);
        assert forall|j: int| 0 <= j < i - 1 implies (#[trigger] notes.drop_first()[j]).id
            != id by {
            assert(notes.drop_first()[j] == notes[j + 1]);
        }
        lemma_first_with_id(notes.drop_first(), id, i - 1);
    }
}

pub proof fn lemma_first_with_id_found(notes: Seq<NoteView>, id: u64)
    ensures
        0 <= first_with_id(notes, id) <= notes.len(),
        first_with_id(notes, id) < notes.len() ==> notes[first_with_id(notes, id)].id == id,
        forall|j: int|
            0 <= j < first_with_id(notes, id) ==> (#[trigger] notes[j]).id != id,
    decreases notes.len(),
{
    if notes.len() > 0 && notes[0].id != id {
        lemma_first_with_id_found(notes.drop_first(), id);
        let f = first_with_id(notes.drop_first(), id);
        assert forall|j: int| 0 <= j < f + 1 implies (#[trigger] notes[j]).id != id by {
            if j > 0 {
                assert(notes.drop_first()[j - 1] == notes[j]);
            }
        }
    }
}

/// The index of the first note with the given identity, if there is one.
pub fn find_note(notes: &Vec<Note>, id: u64) -> (r: Option<usize>)
    ensures
        match r {
            Some(i) => i < notes.len() && i == first_with_id(note_views(notes@), id)
                && notes[i as int].id == id,
            None => first_with_id(note_views(notes@), id) == notes.len(),
        },
{
    for i in 0..notes.len()
        invariant
            forall|j: int| 0 <= j < i ==> (#[trigger] note_views(notes@)[j]).id != id,
    {
        if notes[i].id == id {
            proof {
                lemma_first_with_id(note_views(notes@), id, i as int);
            }
            return Some(i);
        }
        assert(note_views(notes@)[i as int].id != id);
    }
    proof {
        lemma_first_with_id(note_views(notes@), id, notes.len() as int);
    }
    None
}

/// A length in the editor: never shorter than one step.
pub(crate) fn step_or_more(length: Steps) -> (r: Steps)
    ensures
        r@ == at_least_one_step(length@),
{
    if length.units() < UNITS_PER_STEP as u128 {
        Steps::of(1)
    } else {
        length
    }
}

impl Pattern {
    /// A starter melody: a looping C-major-ish arpeggio, one note per beat,
    /// 8 beats = 32 steps.
    pub fn demo() -> (r: Pattern)
        ensures
            r@ == PatternView::demo(),
    {
        let pitches: [i32; 8] = [9, 12, 16, 12, 9, 7, 4, 0];
        let mut p = Pattern::empty(DEMO_BEATS * STEPS_PER_BEAT);
        for i in 0..DEMO_BEATS
            invariant
                pitches@ == demo_pitches(),
                p@ == (PatternView {
                    notes: demo_notes().take(i as int),
                    next_id: i as u64,
                    ..PatternView::empty((DEMO_BEATS * STEPS_PER_BEAT) as usize)
                }),
        {
            let ghost shown = p@.notes;
            let id = p.take_id();
            p.notes.push(
                Note {
                    id,
                    pitch_index: pitches[i],
                    start_step: Steps::of(4 * i as u64),
                    length_steps: Steps::of(4),
                    velocity: DEFAULT_VELOCITY,
                    label: String::new(),
                },
            );
            assert(p@.notes =~= shown.push(demo_notes()[i as int]));
            assert(p@.notes =~= demo_notes().take(i + 1));
        }
        assert(demo_notes().take(DEMO_BEATS as int) =~= demo_notes());
        p
    }

    /// A fresh, empty pattern of the given length (in steps).
    pub fn empty(total_steps: usize) -> (r: Pattern)
        ensures
            r@ == PatternView::empty(total_steps),
    {
        let r = Pattern {
            notes: Vec::new(),
            total_steps: if total_steps < 1 {
                1
            } else {
                total_steps
            },
            beats_per_bar: 4,
            beat_unit: 4,
            next_id: 0,
        };
        assert(r@.notes =~= Seq::<NoteView>::empty());
        r
    }

    /// Allocate a fresh id.
    pub(crate) fn take_id(&mut self) -> (id: u64)
        requires
            old(self).next_id < u64::MAX,
        ensures
            id == old(self).next_id,
            final(self).notes == old(self).notes,
            final(self)@ == (PatternView { next_id: (id + 1) as u64, ..old(self)@ }),
    {
        let id = self.next_id;
        self.next_id = id + 1;
        id
    }

    /// Build an editor-created note and push it.
    pub fn add_note(
        &mut self,
        pitch_index: i32,
        start_step: Steps,
        length_steps: Steps,
        velocity: i32,
    ) -> (id: u64)
        requires
            old(self).next_id < u64::MAX,
        ensures
            id == old(self).next_id,
            final(self)@ == old(self)@.add_note(pitch_index, start_step@, length_steps@, velocity),
    {
        let id = self.take_id();
        self.notes.push(
            Note {
                id,
                pitch_index,
                start_step,
                length_steps: step_or_more(length_steps),
                velocity,
                label: String::new(),
            },
        );
        assert(self@.notes =~= old(self)@.add_note(
            pitch_index,
            start_step@,
            length_steps@,
            velocity,
        ).notes);
        id
    }

    /// Set the custom label of the note with the given id.
    pub fn set_label(&mut self, id: u64, label: String)
        ensures
            final(self)@ == old(self)@.set_label(id, label@),
    {
        proof {
            lemma_first_with_id_found(self@.notes, id);
        }
        if let Some(i) = find_note(&self.notes, id) {
            self.notes[i].label = label;
            assert(self@.notes =~= old(self)@.set_label(id, label@).notes);
        }
    }

    /// Add a copy of `src` (keeping its label) at a new position, returning the
    /// new id.
    pub fn duplicate(&mut self, src: &Note, start_step: Steps, length_steps: Steps) -> (id: u64)
        requires
            old(self).next_id < u64::MAX,
        ensures
            id == old(self).next_id,
            final(self)@ == old(self)@.duplicate(src@, start_step@, length_steps@),
    {
        let id = self.take_id();
        let mut copy = src.clone();
        copy.id = id;
        copy.start_step = start_step;
        copy.length_steps = step_or_more(length_steps);
        self.notes.push(copy);
        assert(self@.notes =~= old(self)@.duplicate(src@, start_step@, length_steps@).notes);
        id
    }

    /// Change the clip length (in steps), trimming notes that would overflow.
    pub fn set_len(&mut self, steps: usize)
        ensures
            final(self)@ == old(self)@.set_len(steps),
    {
        let st: usize = if steps < 1 {
            1
        } else {
            steps
        };
        assert(st * 1_496_020_807_977_696_000 <= 0x14c2_f000_0000_0000_0000_0000_0000_0000);
        let total: u128 = st as u128 * UNITS_PER_STEP as u128;
        let ghost before = self@.notes;
        let count = self.notes.len();
        for i in 0..count
            invariant
                count == self.notes.len(),
                before == old(self)@.notes,
                st == at_least_one(steps),
                total == st * UNITS_PER_STEP,
                UNITS_PER_STEP <= total <= 0x14c2_f000_0000_0000_0000_0000_0000_0000,
                total <= max_units() + 1,
                before.len() == self.notes.len(),
                self.total_steps == old(self).total_steps,
                self.beats_per_bar == old(self).beats_per_bar,
                self.beat_unit == old(self).beat_unit,
                self.next_id == old(self).next_id,
                forall|j: int| 0 <= j < i ==> #[trigger] self@.notes[j] == trimmed(before[j], total as int),
                forall|j: int| i <= j < self.notes.len() ==> #[trigger] self@.notes[j] == before[j],
        {
            assert(self@.notes[i as int] == before[i as int]);
            let start: u128 = self.notes[i].start_step.units();
            let length: u128 = self.notes[i].length_steps.units();
            let ghost prior = self.notes@;
            if start >= total {
                self.notes[i].start_step = Steps::from_units(total - UNITS_PER_STEP as u128);
                self.notes[i].length_steps = Steps::of(1);
            } else {
                let past: u128 = start + length;
                let end: u128 = if past < total {
                    past
                } else {
                    total
                };
                let least: u128 = start + UNITS_PER_STEP as u128;
                let stop: u128 = if end < least {
                    least
                } else {
                    end
                };
                self.notes[i].length_steps = Steps::from_units(stop - start);
            }
            assert(self@.notes[i as int] == trimmed(before[i as int], total as int));
            assert forall|j: int| 0 <= j < self.notes.len() && j != i implies #[trigger]
                self@.notes[j] == note_views(prior)[j] by {}
        }
        assert(self@.notes =~= old(self)@.set_len(steps).notes);
        self.total_steps = st;
    }
}

/// Changing the clip length keeps every note, starts each inside the clip and
/// leaves it at least a step long; a note on whole steps also ends inside. Notes
/// that were inside, and at least a step long, stay as they are.
pub proof fn set_len_trims_into_the_clip(p: PatternView, steps: usize)
    ensures
        p.set_len(steps).notes.len() == p.notes.len(),
        forall|i: int|
            #![trigger p.set_len(steps).notes[i]]
            0 <= i < p.notes.len() ==> {
                let n = p.set_len(steps).notes[i];
                let total = p.set_len(steps).total_units();
                &&& n.id == p.notes[i].id
                &&& n.pitch_index == p.notes[i].pitch_index
                &&& n.start_step < total
                &&& n.length_steps >= UNITS_PER_STEP
                &&& p.notes[i].start_step % (UNITS_PER_STEP as nat) == 0 ==> end_of(n) <= total
                &&& end_of(p.notes[i]) <= total && p.notes[i].length_steps >= UNITS_PER_STEP
                    ==> n == p.notes[i]
            },
{
    let q = p.set_len(steps);
    let total = q.total_units();
    assert forall|i: int|
        #![trigger p.set_len(steps).notes[i]]
        0 <= i < p.notes.len() implies {
        let n = q.notes[i];
        &&& n.id == p.notes[i].id
        &&& n.pitch_index == p.notes[i].pitch_index
        &&& n.start_step < total
        &&& n.length_steps >= UNITS_PER_STEP
        &&& p.notes[i].start_step % (UNITS_PER_STEP as nat) == 0 ==> end_of(n) <= total
        &&& end_of(p.notes[i]) <= total && p.notes[i].length_steps >= UNITS_PER_STEP ==> n
            == p.notes[i]
    } by {
        let o = p.notes[i];
        let u = UNITS_PER_STEP as int;
        assert(total == q.total_steps * u);
        assert(total >= u) by (nonlinear_arith)
            requires
                total == q.total_steps * u,
                q.total_steps >= 1,
                u > 0,
        ;
        if o.start_step % (UNITS_PER_STEP as nat) == 0 && o.start_step < total {
            let k = o.start_step as int / u;
            assert(o.start_step == k * u);
            assert(k + 1 <= q.total_steps) by (nonlinear_arith)
                requires
                    k * u < q.total_steps * u,
                    u > 0,
            ;
            assert((k + 1) * u <= q.total_steps * u) by (nonlinear_arith)
                requires
                    k + 1 <= q.total_steps,
                    u > 0,
            ;
            assert((k + 1) * u == k * u + u) by (nonlinear_arith);
        }
    }
}

/// Setting the same length again changes nothing.
pub proof fn set_len_is_idempotent(p: PatternView, steps: usize)
    ensures
        p.set_len(steps).set_len(steps) == p.set_len(steps),
{
    let q = p.set_len(steps);
    let r = q.set_len(steps);
    set_len_trims_into_the_clip(p, steps);
    assert forall|i: int| 0 <= i < q.notes.len() implies #[trigger] r.notes[i] == q.notes[i] by {
        assert(p.set_len(steps).notes[i].start_step < q.total_units());
    }
    assert(r.notes =~= q.notes);
}

/// Shrinking in two goes is shrinking in one: a length, and then a shorter one,
/// leave the notes as the shorter one alone does.
pub proof fn shrinking_twice_is_shrinking_once(p: PatternView, a: usize, b: usize)
    requires
        b <= a,
    ensures
        p.set_len(a).set_len(b) == p.set_len(b),
{
    let one = p.set_len(b);
    let two = p.set_len(a).set_len(b);
    let u = UNITS_PER_STEP as int;
    let long = at_least_one(a) * u;
    let short = at_least_one(b) * u;
    assert forall|i: int| 0 <= i < p.notes.len() implies #[trigger] two.notes[i]
        == one.notes[i] by {
        let n = p.notes[i];
        assert(p.set_len(a).notes[i] == trimmed(n, long));
        if at_least_one(b) < at_least_one(a) {
            assert(short + u <= long) by (nonlinear_arith)
                requires
                    short == at_least_one(b) * u,
                    long == at_least_one(a) * u,
                    at_least_one(b) + 1 <= at_least_one(a),
                    u > 0,
            ;
        }
    }
    assert(two.notes =~= one.notes);
}

} // verus!
