//! Project snapshot: everything that makes up a "project" -- the pattern,
//! transport, tuning, timbre, effects and editor display settings.
use vstd::prelude::*;

use crate::grid::{Steps, Tempo};
use crate::pattern::Pattern;
use crate::pianoroll::Scheme;
use crate::timbre::{Timbre, Waveform};
use crate::tuning::{Ratio, TuningKind};
#[allow(unused_imports)]
use crate::pattern::{pattern_views, PatternView};
#[allow(unused_imports)]
use crate::text::text_views;

verus! {

/// One effect slot's enabled/mix state as stored.
#[derive(Debug, Clone, Copy, PartialEq, Eq, Structural)]
pub struct EffectState {
    pub on: bool,
    pub mix: i32,
}

impl Default for EffectState {
    fn default() -> (r: EffectState)
        ensures
            r == (EffectState { on: false, mix: 0 }),
    {
        EffectState { on: false, mix: 0 }
    }
}

/// The full project state.
#[derive(Debug)]
pub struct Project {
    pub pattern: Pattern,
    pub tempo: Tempo,
    pub tuning: TuningKind,
    pub waveform: Waveform,
    pub timbre: Timbre,
    pub effects: Vec<EffectState>,
    pub note_names: String,
    pub tonic: i32,
    pub scheme: Scheme,
    /// Snap distance.
    pub snap: Steps,
    pub clips: Vec<Pattern>,
    pub clip_names: Vec<String>,
    pub active_clip: usize,
    pub custom_ratios: Vec<Ratio>,
    pub sample_one_shot: bool,
    /// Height of a row, in thousandths of a pixel.
    pub row_h: u32,
}

/// What a `Project` is.
#[verifier::ext_equal]
pub struct ProjectView {
    pub pattern: PatternView,
    pub tempo: Tempo,
    pub tuning: TuningKind,
    pub waveform: Waveform,
    pub timbre: Timbre,
    pub effects: Seq<EffectState>,
    pub note_names: Seq<char>,
    pub tonic: i32,
    pub scheme: Scheme,
    pub snap: nat,
    pub clips: Seq<PatternView>,
    pub clip_names: Seq<Seq<char>>,
    pub active_clip: usize,
    pub custom_ratios: Seq<Ratio>,
    pub sample_one_shot: bool,
    pub row_h: u32,
}

impl View for Project {
    type V = ProjectView;

    open spec fn view(&self) -> ProjectView {
        ProjectView {
            pattern: self.pattern@,
            tempo: self.tempo,
            tuning: self.tuning,
            waveform: self.waveform,
            timbre: self.timbre,
            effects: self.effects@,
            note_names: self.note_names@,
            tonic: self.tonic,
            scheme: self.scheme,
            snap: self.snap@,
            clips: pattern_views(self.clips@),
            clip_names: text_views(self.clip_names@),
            active_clip: self.active_clip,
            custom_ratios: self.custom_ratios@,
            sample_one_shot: self.sample_one_shot,
            row_h: self.row_h,
        }
    }
}

/// A project file ends in `json`.
pub open spec fn is_json(extension: Option<Seq<char>>) -> bool {
    extension == Some("json"@)
}

/// Whether the path of a project file, given by its extension, has to be given
/// the extension `json`.
pub fn needs_json(extension: Option<&str>) -> (r: bool)
    ensures
        r == !is_json(
            match extension {
                Some(e) => Some(e@),
                None => None,
            },
        ),
{
    match extension {
        Some(e) => String::from_str(e) != String::from_str("json"),
        None => true,
    }
}

} // verus!
