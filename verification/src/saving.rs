//! What holds of a session: transport keys, write-back, scales, saving, opening and
//! importing.
use vstd::prelude::*;

#[allow(unused_imports)]
use crate::audio::{ChangeView, EngineView};
#[allow(unused_imports)]
use crate::changes::{is_recorded, recording_adds_a_point};
#[allow(unused_imports)]
use crate::events::schedule;
#[allow(unused_imports)]
use crate::grid::span_samples;
#[allow(unused_imports)]
use crate::importing::notes_before;
#[allow(unused_imports)]
use crate::midi::{clip_names_of, clips_of, selected_notes, ImportData, ImportedTrack};
#[allow(unused_imports)]
use crate::pattern::PatternView;
#[allow(unused_imports)]
use crate::pianoroll::EditorView;
#[allow(unused_imports)]
use crate::project::ProjectView;
#[allow(unused_imports)]
use crate::session::{
    degrees_of, editor_with_midi, editor_with_project, engine_with_midi, engine_with_project,
    import_outcome, keyed, opening_clip, opening_pattern, previewed, project_changes, project_of,
    resized_scale, starting_scale, with_default_names, with_edits, with_live_clip, written_back,
    ImportOutcome, TransportKey,
};
#[allow(unused_imports)]
use crate::text::decimal;
#[allow(unused_imports)]
use crate::transport::{
    a_loaded_project_rebuilds_what_changed, a_loaded_project_replaces_the_sound,
    a_preview_is_asked_for,
};
#[allow(unused_imports)]
use crate::tuning::{rows_with_scale, tuning_of, Ratio, TuningKind};

verus! {

/// The toggle key starts what stands still and stops what plays; the rewind key goes
/// to the start, after that; without keys nothing happens.
pub proof fn transport_keys_toggle_and_rewind(e: EngineView)
    ensures
        ({
            let none = TransportKey { toggle: false, rewind: false };
            let toggle = TransportKey { toggle: true, rewind: false };
            let rewind = TransportKey { toggle: false, rewind: true };
            let both = TransportKey { toggle: true, rewind: true };
            &&& keyed(e, none) == e
            &&& keyed(e, toggle).playing == !e.playing
            &&& e.playing ==> keyed(e, toggle).sample_counter == e.play_start_pos
            &&& !e.playing ==> keyed(e, toggle).sample_counter == e.sample_counter
            &&& keyed(e, rewind).playing == e.playing
            &&& keyed(e, rewind).sample_counter == 0
            &&& keyed(e, both) == keyed(keyed(e, toggle), rewind)
        }),
{
}

/// Several previews are asked for in their order, as many as there is room for among
/// the 24 that may sound; while playing none is. Nothing else changes.
pub proof fn previews_are_asked_for_in_order(e: EngineView, pitches: Seq<i32>, i: int)
    requires
        e.preview.len() <= 24,
    ensures
        ({
            let r = previewed(e, pitches);
            let n = e.preview.len();
            &&& r == (EngineView { preview: r.preview, ..e })
            &&& e.playing ==> r == e
            &&& !e.playing && n + pitches.len() <= 24 ==> r.preview.len() == n + pitches.len()
            &&& !e.playing && n + pitches.len() > 24 ==> r.preview.len() == 24
            &&& 0 <= i < n ==> r.preview[i] == e.preview[i]
            &&& n <= i < r.preview.len() ==> {
                &&& !r.preview[i].started
                &&& pitches[i - n] >= -48 ==> r.preview[i].note == pitches[i - n] + 48
                &&& pitches[i - n] < -48 ==> r.preview[i].note == 0
            }
        }),
    decreases pitches.len(),
{
    if pitches.len() > 0 {
        let rest = pitches.drop_last();
        previews_are_asked_for_in_order(e, rest, i);
        let t = previewed(e, rest);
        a_preview_is_asked_for(t, pitches.last());
        let n = e.preview.len();
        if n <= i < t.preview.len() {
            assert(rest[i - n] == pitches[i - n]);
        }
        let r = previewed(e, pitches);
        if i == t.preview.len() && i < r.preview.len() {
            assert(pitches[i - n] == pitches.last());
        }
    }
}

/// Writing back takes over an edited pattern, and leaves the engine alone where
/// nothing was edited.
pub proof fn only_edits_are_written_back(e: EngineView, p: PatternView)
    ensures
        with_edits(e, p).pattern == p,
        p == e.pattern ==> with_edits(e, p) == e,
        p != e.pattern ==> with_edits(e, p) == e.set_pattern(p),
{
}

/// Writing back ends with the edited pattern, the previews asked for and, where that is
/// asked for, the playhead at the position; nothing of the sound changes.
pub proof fn writing_back_plays_the_edit(
    e: EngineView,
    p: PatternView,
    previews: Seq<i32>,
    at: nat,
)
    requires
        e.wf(),
    ensures
        ({
            let r = written_back(e, p, previews, None);
            let s = written_back(e, p, previews, Some(at));
            &&& r == (EngineView {
                pattern: p,
                preview: r.preview,
                loop_samples: r.loop_samples,
                events: r.events,
                events_pos: r.events_pos,
                ..e
            })
            &&& r.preview == previewed(e, previews).preview
            &&& p == e.pattern && previews.len() == 0 ==> r == e
            &&& s == r.seek_to_step(at)
            &&& s.pattern == p
            &&& s.stop_pending
        }),
{
    previews_are_asked_for_in_order(with_edits(e, p), previews, 0);
    lemma_same_previews(with_edits(e, p), e, previews);
}

proof fn lemma_same_previews(a: EngineView, b: EngineView, pitches: Seq<i32>)
    requires
        a.preview == b.preview,
        a.playing == b.playing,
        a.sample_rate == b.sample_rate,
    ensures
        previewed(a, pitches).preview == previewed(b, pitches).preview,
        previewed(a, pitches).playing == a.playing,
        previewed(b, pitches).playing == b.playing,
        previewed(a, pitches).sample_rate == a.sample_rate,
        previewed(b, pitches).sample_rate == b.sample_rate,
    decreases pitches.len(),
{
    if pitches.len() > 0 {
        lemma_same_previews(a, b, pitches.drop_last());
    }
}

// ---------------------------------------------------------------------------
// Scales
// ---------------------------------------------------------------------------

/// A resized scale has the size asked for, between 1 and 128. Its first note is the
/// root; the others stay, and new ones are an octave above the root.
pub proof fn a_resized_scale_keeps_its_notes(ratios: Seq<Ratio>, n: i32, i: int)
    ensures
        ({
            let r = resized_scale(ratios, n);
            &&& 1 <= n <= 128 ==> r.len() == n
            &&& n < 1 ==> r.len() == 1
            &&& n > 128 ==> r.len() == 128
            &&& r[0] == (Ratio { num: 1, den: 1 })
            &&& 1 <= i < r.len() && i < ratios.len() ==> r[i] == ratios[i]
            &&& 1 <= i < r.len() && i >= ratios.len() ==> r[i].num == 2 * r[i].den && r[i].den == 1
        }),
{
}

/// The scale editor starts with a major second, a major third and a fifth above the
/// root.
pub proof fn a_scale_starts_with_pure_intervals()
    ensures
        starting_scale().len() == 4,
        starting_scale()[0] == (Ratio { num: 1, den: 1 }),
        starting_scale()[1] == (Ratio { num: 9, den: 8 }),
        starting_scale()[2] == (Ratio { num: 5, den: 4 }),
        starting_scale()[3] == (Ratio { num: 3, den: 2 }),
{
}

/// A custom tuning has a degree for each note of its scale, and at least one; any other
/// has its rows.
pub proof fn a_tuning_has_its_degrees(kind: TuningKind, scale_len: usize, ratios: Seq<Ratio>)
    requires
        ratios.len() == scale_len,
    ensures
        degrees_of(kind, scale_len) == rows_with_scale(kind, ratios),
        kind == TuningKind::Custom && scale_len > 0 ==> degrees_of(kind, scale_len) == scale_len,
        kind == TuningKind::Custom && scale_len == 0 ==> degrees_of(kind, scale_len) == 1,
{
}

/// Default names replace the names alone: the usual twelve for twelve degrees, none
/// for any other number.
pub proof fn default_names_fit_the_tuning(e: EditorView, n: int)
    requires
        0 <= n <= usize::MAX,
    ensures
        ({
            let r = with_default_names(e, n);
            &&& r == (EditorView { names: r.names, ..e })
            &&& n == 12 ==> r.names == "C C# D D# E F F# G G# A A# B"@
            &&& n != 12 ==> r.names.len() == 0
        }),
{
}

// ---------------------------------------------------------------------------
// Projects
// ---------------------------------------------------------------------------

/// A project holds all of the engine's and the editor's state that is to last, each
/// thing from where it is kept, and the live pattern in its clip.
pub proof fn a_project_holds_the_session(
    e: EngineView,
    ed: EditorView,
    p: PatternView,
    ratios: Seq<Ratio>,
    i: int,
    k: int,
)
    ensures
        ({
            let s = project_of(e, ed, p, ratios);
            &&& s.pattern == e.pattern
            &&& s.tempo == e.tempo
            &&& s.tuning == e.tuning_kind
            &&& s.waveform == e.timbre.waveform
            &&& s.timbre == e.timbre
            &&& s.sample_one_shot == e.sample_one_shot
            &&& s.effects.len() == e.effects.len()
            &&& 0 <= k < e.effects.len() ==> s.effects[k].on == e.effects[k].on && s.effects[k].mix
                == e.effects[k].mix
            &&& s.custom_ratios == ratios
            &&& s.note_names == ed.names
            &&& s.tonic == ed.tonic
            &&& s.scheme == ed.scheme
            &&& s.snap == ed.snap
            &&& s.row_h == ed.row_h
            &&& s.clip_names == ed.clip_names
            &&& s.active_clip == ed.active_clip
            &&& s.clips.len() == ed.clips.len()
            &&& ed.active_clip < ed.clips.len() ==> s.clips[ed.active_clip as int] == p
            &&& 0 <= i < ed.clips.len() && i != ed.active_clip ==> s.clips[i] == ed.clips[i]
            &&& with_live_clip(ed, p) == (EditorView { clips: s.clips, ..ed })
        }),
{
}

/// A project opens with its active clip, or its last one where there is no such
/// clip, or its pattern where it has no clips.
pub proof fn a_project_opens_with_its_active_clip(p: ProjectView)
    ensures
        p.active_clip < p.clips.len() ==> opening_pattern(p) == p.clips[p.active_clip as int]
            && opening_clip(p) == p.active_clip,
        p.clips.len() > 0 && p.active_clip >= p.clips.len() ==> opening_pattern(p)
            == p.clips.last() && opening_clip(p) == p.clips.len() - 1,
        p.clips.len() == 0 ==> opening_pattern(p) == p.pattern,
{
}

/// An opened project sets the engine to the pattern it opens with, its tempo, tuning,
/// timbre, effects, scale and one-shot switch, and changes nothing else but loop,
/// schedule and cursor.
pub proof fn an_opened_project_sets_the_engine(e: EngineView, p: ProjectView, k: int)
    requires
        p.tempo.den > 0,
        0 <= k < e.effects.len(),
    ensures
        ({
            let r = engine_with_project(e, p);
            &&& r == (EngineView {
                pattern: opening_pattern(p),
                tempo: r.tempo,
                tuning_kind: p.tuning,
                timbre: p.timbre,
                effects: r.effects,
                custom_ratios: p.custom_ratios,
                sample_one_shot: p.sample_one_shot,
                loop_samples: r.loop_samples,
                events: r.events,
                events_pos: r.events_pos,
                ..e
            })
            &&& p.tempo.num >= p.tempo.den ==> r.tempo == p.tempo
            &&& p.tempo.num < p.tempo.den ==> r.tempo.num == r.tempo.den
            &&& r.effects.len() == e.effects.len()
            &&& r.effects[k].kind == e.effects[k].kind
            &&& k >= p.effects.len() ==> r.effects[k] == e.effects[k]
            &&& k < p.effects.len() ==> r.effects[k].on == p.effects[k].on
            &&& k < p.effects.len() && 0 <= p.effects[k].mix <= 1_270_000 ==> r.effects[k].mix
                == p.effects[k].mix
        }),
{
    a_loaded_project_replaces_the_sound(e, p, k);
}

/// Opening a project does to the generator what loading it does, and then rebuilds it
/// for the scale of the project where that is what is played.
pub proof fn an_opened_project_tunes_last(e: EngineView, p: ProjectView)
    ensures
        ({
            let c = project_changes(e, p);
            &&& c.len() == 4
            &&& c.take(3) == e.import_changes(p)
            &&& p.tuning != TuningKind::Custom ==> c[3] == ChangeView::Keep
            &&& p.tuning == TuningKind::Custom ==> (c[3] matches ChangeView::Rebuild(plan)
                && plan.tuning == tuning_of(p.tuning, p.custom_ratios) && plan.timbre == p.timbre)
        }),
{
    a_loaded_project_rebuilds_what_changed(e, p);
    assert(project_changes(e, p).take(3) =~= e.import_changes(p));
    crate::transport::lemma_effects_alone(
        e.with_song(p).set_tuning(p.tuning).set_timbre(p.timbre),
        p.effects,
    );
}

/// An opened project sets the editor to its clips, names and display settings, with
/// nothing selected and the pattern it opens with as an undo point. A project without
/// clips gives one clip, with its pattern. Nothing else of the editor changes.
pub proof fn an_opened_project_sets_the_editor(e: EditorView, p: ProjectView)
    requires
        e.wf(),
        p.clips.len() <= usize::MAX,
    ensures
        ({
            let r = editor_with_project(e, p);
            let q = opening_pattern(p);
            &&& r == (EditorView {
                names: p.note_names,
                scheme: p.scheme,
                snap: p.snap,
                row_h: p.row_h,
                tonic: p.tonic,
                clips: r.clips,
                clip_names: r.clip_names,
                active_clip: r.active_clip,
                selection: r.selection,
                history: e.begin_edit(q).history,
                history_pos: e.begin_edit(q).history_pos,
                ..e
            })
            &&& r.history.last() == q
            &&& r.selection.is_empty()
            &&& p.clips.len() > 0 ==> r.clips == p.clips && r.clip_names == p.clip_names
                && r.active_clip == opening_clip(p)
            &&& p.clips.len() == 0 ==> r.clips.len() == 1 && r.clips[0] == p.pattern
                && r.clip_names.len() == 1 && r.clip_names[0] == "Clip "@ + decimal(0)
                && r.active_clip == 0
            &&& r.clips[r.active_clip as int] == q
        }),
{
    recording_adds_a_point(e, opening_pattern(p));
    assert(editor_with_project(e, p).history =~= e.begin_edit(opening_pattern(p)).history);
}

// ---------------------------------------------------------------------------
// MIDI import
// ---------------------------------------------------------------------------

/// A MIDI file is imported where a track is selected and its notes can be told
/// apart; without a selected track nothing is.
pub proof fn an_import_needs_a_selected_track(data: ImportData, i: int)
    ensures
        0 <= i < data.tracks@.len() && data.tracks@[i].selected ==> import_outcome(data)
            != ImportOutcome::NothingSelected,
        (forall|j: int| 0 <= j < data.tracks@.len() ==> !(#[trigger] data.tracks@[j]).selected)
            ==> import_outcome(data) == ImportOutcome::NothingSelected,
        0 <= i < data.tracks@.len() && data.tracks@[i].selected ==> (import_outcome(data)
            == ImportOutcome::Imported <==> notes_before(
            data.tracks@,
            data.tracks@.len() as int,
        ) <= u64::MAX),
{
    lemma_selected_notes(data.tracks@);
}

proof fn lemma_selected_notes(tracks: Seq<ImportedTrack>)
    ensures
        selected_notes(tracks) == notes_before(tracks, tracks.len() as int),
    decreases tracks.len(),
{
    if tracks.len() > 0 {
        let rest = tracks.drop_last();
        lemma_selected_notes(rest);
        crate::importing::lemma_chosen_prefix(rest, tracks, rest.len() as int);
    }
}

/// After an import the engine plays the first clip at the tempo of the file; nothing
/// else changes but loop, schedule and cursor.
pub proof fn an_import_plays_the_first_clip(e: EngineView, data: ImportData, separate: bool)
    requires
        data.tempo.num >= data.tempo.den > 0,
    ensures
        ({
            let r = engine_with_midi(e, data, separate);
            &&& r == (EngineView {
                tempo: data.tempo,
                pattern: clips_of(data, separate)[0],
                loop_samples: r.loop_samples,
                events: r.events,
                events_pos: r.events_pos,
                ..e
            })
            &&& r.loop_samples == span_samples(
                r.pattern.total_steps as int,
                e.sample_rate,
                data.tempo,
            )
            &&& r.events == schedule(r.pattern.notes, e.sample_rate, data.tempo, r.loop_samples)
        }),
{
}

/// Importing replaces the clips and their names, makes the first clip the active one,
/// deselects everything and records the pattern that was being edited. Nothing else of
/// the editor changes.
pub proof fn an_import_replaces_the_clips(
    e: EditorView,
    p: PatternView,
    data: ImportData,
    separate: bool,
)
    requires
        e.wf(),
    ensures
        ({
            let r = editor_with_midi(e, p, data, separate);
            &&& r.clips == clips_of(data, separate)
            &&& r.clip_names == clip_names_of(data, separate)
            &&& r.active_clip == 0
            &&& r.selection.is_empty()
            &&& is_recorded(
                r,
                EditorView { clips: r.clips, clip_names: r.clip_names, active_clip: 0, ..e },
                p,
            )
        }),
{
    recording_adds_a_point(e, p);
}

} // verus!
