//! What the commands of the user interface do to engine and editor together.
use vstd::prelude::*;

use crate::audio::{Engine, GeneratorChange};
use crate::clips::{clone_patterns, clone_texts, same_pattern};
use crate::display::default_names;
use crate::grid::Steps;
use crate::midi::{build_clips, count_notes, ImportData};
use crate::pattern::Pattern;
use crate::pianoroll::EditorState;
use crate::project::Project;
use crate::tuning::{clone_ratios, Ratio, TuningKind};
#[allow(unused_imports)]
use crate::audio::{change_views, ChangeView, EngineView};
#[allow(unused_imports)]
use crate::display::starting_names;
#[allow(unused_imports)]
use crate::midi::{clip_names_of, clips_of, selected_notes, ImportedTrack};
#[allow(unused_imports)]
use crate::pattern::{pattern_views, PatternView};
#[allow(unused_imports)]
use crate::pianoroll::EditorView;
#[allow(unused_imports)]
use crate::project::ProjectView;
#[allow(unused_imports)]
use crate::tuning::{rows_per_octave, rows_with_scale};

verus! {

broadcast use vstd::std_specs::hash::group_hash_axioms;

/// Most notes that a custom scale has.
pub const MAX_SCALE: i32 = 128;

// ---------------------------------------------------------------------------
// Transport
// ---------------------------------------------------------------------------

/// Play when stopped, stop when playing.
pub fn toggle_playing(engine: &mut Engine)
    requires
        old(engine)@.wf(),
    ensures
        final(engine)@ == old(engine)@.set_playing(!old(engine)@.playing),
        final(engine)@.wf(),
{
    let playing = engine.playing();
    engine.set_playing(!playing);
}

/// Stop, and go to the start of the loop.
pub fn stop_and_home(engine: &mut Engine)
    requires
        old(engine)@.wf(),
    ensures
        final(engine)@ == old(engine)@.set_playing(false).rewind(),
        final(engine)@.wf(),
{
    engine.set_playing(false);
    engine.rewind();
}

/// What the keys ask of the transport.
#[derive(Debug, Clone, Copy, PartialEq, Eq, Structural)]
pub struct TransportKey {
    /// Play when stopped, stop when playing.
    pub toggle: bool,
    /// Go to the start of the loop.
    pub rewind: bool,
}

/// What the keys ask of the transport: Space toggles, Home and W rewind. While a
/// text is being typed they ask for nothing.
pub fn transport_key(space: bool, home: bool, w: bool, typing: bool) -> (r: TransportKey)
    ensures
        r.toggle == (space && !typing),
        r.rewind == ((home || w) && !typing),
{
    TransportKey { toggle: space && !typing, rewind: (home || w) && !typing }
}

/// The engine after the keys were pressed: first the toggle, then the rewind.
pub open spec fn keyed(e: EngineView, k: TransportKey) -> EngineView {
    let toggled = if k.toggle {
        e.set_playing(!e.playing)
    } else {
        e
    };
    if k.rewind {
        toggled.rewind()
    } else {
        toggled
    }
}

/// Do what the keys ask of the transport.
pub fn press_transport(engine: &mut Engine, k: TransportKey)
    requires
        old(engine)@.wf(),
    ensures
        final(engine)@ == keyed(old(engine)@, k),
        final(engine)@.wf(),
{
    if k.toggle {
        toggle_playing(engine);
    }
    if k.rewind {
        engine.rewind();
    }
}

/// The engine with a list of preview notes asked for, in order.
pub open spec fn previewed(e: EngineView, pitches: Seq<i32>) -> EngineView
    decreases pitches.len(),
{
    if pitches.len() == 0 {
        e
    } else {
        previewed(e, pitches.drop_last()).preview_note(pitches.last())
    }
}

/// The engine with the edited pattern; the same pattern changes nothing.
pub open spec fn with_edits(e: EngineView, p: PatternView) -> EngineView {
    if e.pattern == p {
        e
    } else {
        e.set_pattern(p)
    }
}

/// The engine with the edited pattern written back, the previews asked for and, where
/// that is asked for, the playhead moved.
pub open spec fn written_back(
    e: EngineView,
    p: PatternView,
    previews: Seq<i32>,
    seek: Option<nat>,
) -> EngineView {
    let r = previewed(with_edits(e, p), previews);
    match seek {
        Some(at) => r.seek_to_step(at),
        None => r,
    }
}

/// Write the edited pattern back, play the requested previews and seek.
pub fn write_back(engine: &mut Engine, pat: &Pattern, previews: &Vec<i32>, seek: Option<Steps>)
    requires
        old(engine)@.wf(),
    ensures
        final(engine)@ == written_back(
            old(engine)@,
            pat@,
            previews@,
            match seek {
                Some(at) => Some(at@),
                None => None,
            },
        ),
        final(engine)@ == {
            let e = previewed(with_edits(old(engine)@, pat@), previews@);
            match seek {
                Some(at) => e.seek_to_step(at@),
                None => e,
            }
        },
        final(engine)@.wf(),
{
    if !same_pattern(engine.pattern(), pat) {
        engine.set_pattern(pat.clone());
    }
    let ghost edited = engine@;
    for i in 0..previews.len()
        invariant
            engine@.wf(),
            engine@ == previewed(edited, previews@.take(i as int)),
    {
        assert(previews@.take(i + 1).drop_last() =~= previews@.take(i as int));
        engine.preview_note(previews[i]);
    }
    assert(previews@.take(previews.len() as int) =~= previews@);
    if let Some(at) = seek {
        engine.seek_to_step(at);
    }
}

// ---------------------------------------------------------------------------
// Tuning
// ---------------------------------------------------------------------------

/// The custom scale that the scale editor starts with.
pub open spec fn starting_scale() -> Seq<Ratio> {
    seq![
        Ratio { num: 1, den: 1 },
        Ratio { num: 9, den: 8 },
        Ratio { num: 5, den: 4 },
        Ratio { num: 3, den: 2 },
    ]
}

/// The custom scale that the scale editor starts with.
pub fn new_scale() -> (r: Vec<Ratio>)
    ensures
        r@ == starting_scale(),
{
    let r = vec![
        Ratio { num: 1, den: 1 },
        Ratio { num: 9, den: 8 },
        Ratio { num: 5, den: 4 },
        Ratio { num: 3, den: 2 },
    ];
    assert(r@ =~= starting_scale());
    r
}

/// A scale with `n` notes, from 1 to 128: new notes are an octave above the
/// root, and the first one is the root.
pub open spec fn resized_scale(ratios: Seq<Ratio>, n: i32) -> Seq<Ratio> {
    let len = if n < 1 {
        1
    } else if n > MAX_SCALE {
        MAX_SCALE as int
    } else {
        n as int
    };
    Seq::new(
        len as nat,
        |i: int|
            if i == 0 {
                Ratio { num: 1, den: 1 }
            } else if i < ratios.len() {
                ratios[i]
            } else {
                Ratio { num: 2, den: 1 }
            },
    )
}

/// Sets the number of notes of the custom scale.
pub fn resize_scale(ratios: &mut Vec<Ratio>, n: i32)
    ensures
        final(ratios)@ == resized_scale(old(ratios)@, n),
{
    let len: usize = if n < 1 {
        1
    } else if n > MAX_SCALE {
        128
    } else {
        n as usize
    };
    let mut r: Vec<Ratio> = Vec::new();
    for i in 0..len
        invariant
            r.len() == i,
            forall|j: int|
                0 <= j < i ==> #[trigger] r[j] == if j == 0 {
                    Ratio { num: 1, den: 1 }
                } else if j < ratios.len() {
                    ratios[j]
                } else {
                    Ratio { num: 2, den: 1 }
                },
    {
        if i == 0 {
            r.push(Ratio { num: 1, den: 1 });
        } else if i < ratios.len() {
            r.push(ratios[i]);
        } else {
            r.push(Ratio { num: 2, den: 1 });
        }
    }
    assert(r@ =~= resized_scale(ratios@, n));
    *ratios = r;
}

/// The editor with the note names that fit `n` degrees.
pub open spec fn with_default_names(e: EditorView, n: int) -> EditorView {
    EditorView { names: starting_names(n as usize), ..e }
}

/// Sets the note names that fit `n` degrees.
fn set_default_names(editor: &mut EditorState, n: usize)
    ensures
        final(editor)@ == with_default_names(old(editor)@, n as int),
        old(editor)@.wf() ==> final(editor)@.wf(),
{
    editor.names = default_names(n);
    assert(editor@ =~= with_default_names(old(editor)@, n as int));
}

/// How many degrees a tuning has, with a scale of `scale_len` notes as the custom one.
pub open spec fn degrees_of(kind: TuningKind, scale_len: usize) -> int {
    if kind == TuningKind::Custom {
        if scale_len < 1 {
            1
        } else {
            scale_len as int
        }
    } else {
        rows_per_octave(kind) as int
    }
}

/// Choose a tuning from the list; the note names follow it. `scale_len` is the
/// size of the scale in the scale editor.
pub fn choose_tuning(
    engine: &mut Engine,
    editor: &mut EditorState,
    kind: TuningKind,
    scale_len: usize,
) -> (r: GeneratorChange)
    ensures
        final(engine)@ == old(engine)@.set_tuning(kind),
        r@ == old(engine)@.tuning_change(kind),
        final(editor)@ == with_default_names(old(editor)@, degrees_of(kind, scale_len)),
        final(editor)@ == with_default_names(
            old(editor)@,
            if kind == TuningKind::Custom {
                if scale_len < 1 {
                    1
                } else {
                    scale_len as int
                }
            } else {
                rows_per_octave(kind) as int
            },
        ),
        old(engine)@.wf() ==> final(engine)@.wf(),
        old(editor)@.wf() ==> final(editor)@.wf(),
{
    let change = engine.set_tuning(kind);
    let n: usize = if kind == TuningKind::Custom {
        if scale_len < 1 {
            1
        } else {
            scale_len
        }
    } else {
        kind.steps_per_octave()
    };
    set_default_names(editor, n);
    change
}

/// Tune to the scale of the scale editor; the note names follow it.
pub fn apply_scale(engine: &mut Engine, editor: &mut EditorState, ratios: &Vec<Ratio>) -> (r: Vec<
    GeneratorChange,
>)
    requires
        old(engine)@.wf(),
        ratios.len() <= i32::MAX,
    ensures
        final(engine)@ == old(engine)@.set_custom_ratios(ratios@).set_tuning(TuningKind::Custom),
        change_views(r@) == seq![
            old(engine)@.ratios_change(ratios@),
            old(engine)@.set_custom_ratios(ratios@).tuning_change(TuningKind::Custom),
        ],
        final(editor)@ == with_default_names(
            old(editor)@,
            rows_with_scale(TuningKind::Custom, ratios@),
        ),
        final(engine)@.wf(),
        old(editor)@.wf() ==> final(editor)@.wf(),
{
    let first = engine.set_custom_ratios(clone_ratios(ratios));
    let second = engine.set_tuning(TuningKind::Custom);
    let n = engine.tuning_steps();
    set_default_names(editor, n as usize);
    let r = vec![first, second];
    assert(change_views(r@) =~= seq![
        old(engine)@.ratios_change(ratios@),
        old(engine)@.set_custom_ratios(ratios@).tuning_change(TuningKind::Custom),
    ]);
    r
}

/// Set the note names back to those that fit the tuning.
pub fn reset_names(engine: &Engine, editor: &mut EditorState)
    requires
        engine@.wf(),
    ensures
        final(editor)@ == with_default_names(
            old(editor)@,
            rows_with_scale(engine@.tuning_kind, engine@.custom_ratios),
        ),
        old(editor)@.wf() ==> final(editor)@.wf(),
{
    let n = engine.tuning_steps();
    set_default_names(editor, n as usize);
}

// ---------------------------------------------------------------------------
// Projects
// ---------------------------------------------------------------------------

/// The editor with the live pattern kept in the active clip, if there is one.
pub open spec fn with_live_clip(e: EditorView, p: PatternView) -> EditorView {
    if e.has_active_clip() {
        e.stored(p)
    } else {
        e
    }
}

/// The project that engine and editor make up, with `p` being edited and
/// `ratios` in the scale editor.
pub open spec fn project_of(
    e: EngineView,
    ed: EditorView,
    p: PatternView,
    ratios: Seq<Ratio>,
) -> ProjectView {
    ProjectView {
        note_names: ed.names,
        scheme: ed.scheme,
        snap: ed.snap,
        tonic: ed.tonic,
        custom_ratios: ratios,
        row_h: ed.row_h,
        clips: with_live_clip(ed, p).clips,
        clip_names: ed.clip_names,
        active_clip: ed.active_clip,
        ..e.export_project()
    }
}

/// Snapshot engine and editor as a project. The live edits of the active clip
/// are kept in it first.
pub fn save_project(
    engine: &Engine,
    editor: &mut EditorState,
    pat: &Pattern,
    ratios: &Vec<Ratio>,
) -> (r: Project)
    ensures
        r@ == project_of(engine@, old(editor)@, pat@, ratios@),
        final(editor)@ == with_live_clip(old(editor)@, pat@),
        old(editor)@.wf() ==> final(editor)@.wf(),
{
    let mut p = engine.export_project();
    if editor.active_clip < editor.clips.len() {
        editor.store_clip(pat);
    }
    p.note_names = editor.names.clone();
    p.scheme = editor.scheme;
    p.snap = editor.snap;
    p.tonic = editor.tonic;
    p.custom_ratios = clone_ratios(ratios);
    p.row_h = editor.row_h;
    p.clips = clone_patterns(&editor.clips);
    p.clip_names = clone_texts(&editor.clip_names);
    p.active_clip = editor.active_clip;
    assert(p@ =~= project_of(engine@, old(editor)@, pat@, ratios@));
    p
}

/// The clip that a project opens with.
pub open spec fn opening_clip(p: ProjectView) -> int {
    if p.active_clip < p.clips.len() {
        p.active_clip as int
    } else {
        p.clips.len() - 1
    }
}

/// The pattern that a project opens with.
pub open spec fn opening_pattern(p: ProjectView) -> PatternView {
    if p.clips.len() > 0 {
        p.clips[opening_clip(p)]
    } else {
        p.pattern
    }
}

/// The engine after opening a project.
pub open spec fn engine_with_project(e: EngineView, p: ProjectView) -> EngineView {
    let imported = e.import_project(p);
    (if p.clips.len() > 0 {
        imported.set_pattern(opening_pattern(p))
    } else {
        imported
    }).set_custom_ratios(p.custom_ratios)
}

/// What opening a project does to the generator.
pub open spec fn project_changes(e: EngineView, p: ProjectView) -> Seq<ChangeView> {
    let imported = e.import_project(p);
    e.import_changes(p).push(
        (if p.clips.len() > 0 {
            imported.set_pattern(opening_pattern(p))
        } else {
            imported
        }).ratios_change(p.custom_ratios),
    )
}

/// The editor after opening a project.
pub open spec fn editor_with_project(e: EditorView, p: ProjectView) -> EditorView {
    let clipped = if p.clips.len() > 0 {
        EditorView {
            clips: p.clips,
            clip_names: p.clip_names,
            active_clip: opening_clip(p) as usize,
            ..e
        }
    } else {
        e.single_clip(p.pattern)
    };
    EditorView {
        names: p.note_names,
        scheme: p.scheme,
        snap: p.snap,
        row_h: p.row_h,
        tonic: p.tonic,
        selection: Set::empty(),
        ..clipped.begin_edit(opening_pattern(p))
    }
}

/// Open a project: engine, editor and the pattern being edited take its state,
/// and the scale editor its scale.
pub fn open_project(
    engine: &mut Engine,
    editor: &mut EditorState,
    pat: &mut Pattern,
    ratios: &mut Vec<Ratio>,
    p: &Project,
) -> (r: Vec<GeneratorChange>)
    requires
        old(engine)@.wf(),
        old(editor)@.wf(),
        p.tempo.wf(),
        p.custom_ratios.len() <= i32::MAX,
    ensures
        final(engine)@ == engine_with_project(old(engine)@, p@),
        final(editor)@ == editor_with_project(old(editor)@, p@),
        final(pat)@ == opening_pattern(p@),
        final(ratios)@ == p@.custom_ratios,
        change_views(r@) == project_changes(old(engine)@, p@),
        final(engine)@.wf(),
        final(editor)@.wf(),
        final(editor)@.has_active_clip(),
{
    let mut changes = engine.import_project(p);
    let ghost first = change_views(changes@);
    assert(p@.clips.len() == p.clips.len());
    if p.clips.len() > 0 {
        editor.clips = clone_patterns(&p.clips);
        editor.clip_names = clone_texts(&p.clip_names);
        editor.active_clip = if p.active_clip < p.clips.len() {
            p.active_clip
        } else {
            p.clips.len() - 1
        };
        assert(p.clips[opening_clip(p@)]@ == p@.clips[opening_clip(p@)]);
        *pat = p.clips[editor.active_clip].clone();
        engine.set_pattern(pat.clone());
    } else {
        *pat = p.pattern.clone();
        editor.set_single_clip(pat);
    }
    let last = engine.set_custom_ratios(clone_ratios(&p.custom_ratios));
    *ratios = clone_ratios(&p.custom_ratios);
    editor.names = p.note_names.clone();
    editor.scheme = p.scheme;
    editor.snap = p.snap;
    editor.row_h = p.row_h;
    editor.tonic = p.tonic;
    editor.selection.clear();
    editor.begin_edit(pat);
    changes.push(last);
    assert(change_views(changes@) =~= project_changes(old(engine)@, p@));
    assert(editor@ =~= editor_with_project(old(editor)@, p@));
    changes
}

// ---------------------------------------------------------------------------
// MIDI import
// ---------------------------------------------------------------------------

/// Some track is selected.
pub open spec fn any_selected(tracks: Seq<ImportedTrack>) -> bool {
    exists|i: int| 0 <= i < tracks.len() && (#[trigger] tracks[i]).selected
}

/// Whether some track is selected for import.
pub fn can_import(data: &ImportData) -> (r: bool)
    ensures
        r == any_selected(data.tracks@),
{
    for i in 0..data.tracks.len()
        invariant
            forall|j: int| 0 <= j < i ==> !(#[trigger] data.tracks[j]).selected,
    {
        if data.tracks[i].selected {
            return true;
        }
    }
    false
}

/// What came of an import.
#[derive(Debug, Clone, Copy, PartialEq, Eq, Structural)]
pub enum ImportOutcome {
    Imported,
    /// No track is selected.
    NothingSelected,
    /// There are more notes than identities.
    TooManyNotes,
}

/// What comes of an import.
pub open spec fn import_outcome(data: ImportData) -> ImportOutcome {
    if !any_selected(data.tracks@) {
        ImportOutcome::NothingSelected
    } else if selected_notes(data.tracks@) > u64::MAX {
        ImportOutcome::TooManyNotes
    } else {
        ImportOutcome::Imported
    }
}

/// The editor after importing the clips of a MIDI file.
pub open spec fn editor_with_midi(
    e: EditorView,
    p: PatternView,
    data: ImportData,
    separate: bool,
) -> EditorView {
    EditorView {
        clips: clips_of(data, separate),
        clip_names: clip_names_of(data, separate),
        active_clip: 0,
        selection: Set::empty(),
        ..e.begin_edit(p)
    }
}

/// The engine after importing a MIDI file: at its tempo, with the first clip.
pub open spec fn engine_with_midi(e: EngineView, data: ImportData, separate: bool) -> EngineView {
    e.set_tempo(data.tempo).set_pattern(clips_of(data, separate)[0])
}

/// Import the selected tracks of a MIDI file as the clips of the project, and
/// open the first one. Where that cannot be done, nothing happens.
pub fn import_midi(
    engine: &mut Engine,
    editor: &mut EditorState,
    pat: &mut Pattern,
    data: &ImportData,
    separate: bool,
) -> (r: ImportOutcome)
    requires
        old(engine)@.wf(),
        old(editor)@.wf(),
        data.ppq > 0,
        data.tempo.wf(),
    ensures
        r == import_outcome(*data),
        r != ImportOutcome::Imported ==> final(engine)@ == old(engine)@ && final(editor)@ == old(
            editor,
        )@ && final(pat)@ == old(pat)@,
        r == ImportOutcome::Imported ==> {
            &&& final(pat)@ == clips_of(*data, separate)[0]
            &&& final(engine)@ == old(engine)@.set_tempo(data.tempo).set_pattern(
                clips_of(*data, separate)[0],
            )
            &&& final(engine)@ == engine_with_midi(old(engine)@, *data, separate)
            &&& final(editor)@ == editor_with_midi(old(editor)@, old(pat)@, *data, separate)
            &&& final(editor)@.has_active_clip()
        },
        final(engine)@.wf(),
        final(editor)@.wf(),
{
    if !can_import(data) {
        return ImportOutcome::NothingSelected;
    }
    if count_notes(data).is_none() {
        return ImportOutcome::TooManyNotes;
    }
    let (clips, names) = build_clips(data, separate);
    proof {
        let tracks = data.tracks@;
        let i = choose|i: int| 0 <= i < tracks.len() && (#[trigger] tracks[i]).selected;
        tracks.lemma_filter_contains(|t: ImportedTrack| t.selected, i);
        assert(clips@.len() == pattern_views(clips@).len());
        assert(clips@.len() > 0);
    }
    editor.begin_edit(pat);
    let first = clips[0].clone();
    assert(first@ == pattern_views(clips@)[0]);
    editor.clips = clips;
    editor.clip_names = names;
    editor.active_clip = 0;
    *pat = first;
    engine.set_tempo(data.tempo);
    engine.set_pattern(pat.clone());
    editor.selection.clear();
    assert(editor@ =~= editor_with_midi(old(editor)@, old(pat)@, *data, separate));
    ImportOutcome::Imported
}

// ---------------------------------------------------------------------------
// What holds of saving and opening
// ---------------------------------------------------------------------------

/// Opening a saved project brings back the pattern being edited, the clips, the
/// display settings, and what the engine plays and how.
pub proof fn opening_restores_what_was_saved(
    e: EngineView,
    ed: EditorView,
    p: PatternView,
    ratios: Seq<Ratio>,
    e2: EngineView,
    ed2: EditorView,
)
    requires
        e.wf(),
        e2.wf(),
        ed.has_active_clip(),
    ensures
        ({
            let saved = project_of(e, ed, p, ratios);
            let engine = engine_with_project(e2, saved);
            let editor = editor_with_project(ed2, saved);
            &&& opening_pattern(saved) == p
            &&& engine.pattern == p
            &&& engine.tempo == e.tempo
            &&& engine.tuning_kind == e.tuning_kind
            &&& engine.timbre == e.timbre
            &&& engine.custom_ratios == ratios
            &&& engine.sample_one_shot == e.sample_one_shot
            &&& engine.export_project().effects == e.export_project().effects
            &&& editor.clips == ed.stored(p).clips
            &&& editor.clip_names == ed.clip_names
            &&& editor.active_clip == ed.active_clip
            &&& editor.names == ed.names
            &&& editor.scheme == ed.scheme
            &&& editor.snap == ed.snap
            &&& editor.tonic == ed.tonic
            &&& editor.row_h == ed.row_h
        }),
{
    let saved = project_of(e, ed, p, ratios);
    let engine = engine_with_project(e2, saved);
    let voiced = e2.with_song(saved).set_tuning(saved.tuning).set_timbre(saved.timbre);
    let states = saved.effects;
    reveal_with_fuel(EngineView::with_effects, 3);
    assert(states.len() == 2);
    assert(states.drop_last().drop_last().len() == 0);
    let r = voiced.with_effects(states);
    assert(r.effects.len() == 2);
    assert(r.effects[0].on == e.effects[0].on && r.effects[0].mix == e.effects[0].mix);
    assert(r.effects[1].on == e.effects[1].on && r.effects[1].mix == e.effects[1].mix);
    assert(engine.effects == r.effects);
    assert(engine.export_project().effects =~= e.export_project().effects);
}

} // verus!
