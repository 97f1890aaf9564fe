//! The voice of the track: waveform, envelope, gain and effect slots.
use vstd::prelude::*;

use crate::level::{DEFAULT_VELOCITY, LEVEL_HALF, LEVEL_ONE};

verus! {

/// Selectable oscillator waveform for the track's voice.
#[derive(Debug, Clone, Copy, PartialEq, Eq, Structural)]
pub enum Waveform {
    Sine,
    Triangle,
    Saw,
    Square,
}

/// The waveforms, in the order they are offered.
pub open spec fn listed_waveforms() -> Seq<Waveform> {
    seq![Waveform::Sine, Waveform::Triangle, Waveform::Saw, Waveform::Square]
}

/// The name of a waveform.
pub open spec fn waveform_label(w: Waveform) -> Seq<char> {
    match w {
        Waveform::Sine => "Sine"@,
        Waveform::Triangle => "Triangle"@,
        Waveform::Saw => "Saw"@,
        Waveform::Square => "Square"@,
    }
}

impl Waveform {
    /// The waveforms to choose from.
    pub fn all() -> (r: &'static [Waveform])
        ensures
            r@ == listed_waveforms(),
    {
        let r: &'static [Waveform] = &[
            Waveform::Sine,
            Waveform::Triangle,
            Waveform::Saw,
            Waveform::Square,
        ];
        assert(r@ =~= listed_waveforms());
        r
    }

    /// The name shown for the waveform.
    pub fn label(self) -> (r: &'static str)
        ensures
            r@ == waveform_label(self),
    {
        match self {
            Waveform::Sine => "Sine",
            Waveform::Triangle => "Triangle",
            Waveform::Saw => "Saw",
            Waveform::Square => "Square",
        }
    }
}

/// Simple single-voice timbre: waveform, envelope and gain. Times are in
/// microseconds, `sustain` and `gain` are levels.
#[derive(Debug, Clone, Copy, PartialEq, Eq, Structural)]
pub struct Timbre {
    pub waveform: Waveform,
    pub attack: u32,
    pub hold: u32,
    pub decay: u32,
    pub sustain: i32,
    pub release: u32,
    pub gain: i32,
}

impl Default for Timbre {
    fn default() -> (r: Timbre)
        ensures
            r == default_timbre(),
    {
        Timbre {
            waveform: Waveform::Sine,
            attack: 10_000,
            hold: 100_000,
            decay: 100_000,
            sustain: LEVEL_ONE,
            release: 100_000,
            gain: DEFAULT_VELOCITY,
        }
    }
}

/// The timbre of a new track: a sine with a short attack at level 0.8.
pub open spec fn default_timbre() -> Timbre {
    Timbre {
        waveform: Waveform::Sine,
        attack: 10_000,
        hold: 100_000,
        decay: 100_000,
        sustain: LEVEL_ONE,
        release: 100_000,
        gain: DEFAULT_VELOCITY,
    }
}

/// A parameter of the sound generator that the timbre sets.
#[derive(Debug, Clone, Copy, PartialEq, Eq, Structural)]
pub enum Setting {
    /// A time in microseconds.
    Time(u32),
    /// A level.
    Level(i32),
}

/// The generator parameters that a timbre sets, in order.
pub open spec fn timbre_settings(t: Timbre) -> Seq<(Seq<char>, Setting)> {
    seq![
        ("attack_time"@, Setting::Time(t.attack)),
        ("hold_time"@, Setting::Time(t.hold)),
        ("decay_time"@, Setting::Time(t.decay)),
        ("sustain_level"@, Setting::Level(t.sustain)),
        ("release_time"@, Setting::Time(t.release)),
        ("gain"@, Setting::Level(t.gain)),
    ]
}

/// The names and values of generator parameters.
pub open spec fn setting_views(s: Seq<(&'static str, Setting)>) -> Seq<(Seq<char>, Setting)> {
    Seq::new(s.len(), |i: int| (s[i].0@, s[i].1))
}

impl Timbre {
    /// The generator parameters that this timbre sets, by name.
    pub fn settings(&self) -> (r: Vec<(&'static str, Setting)>)
        ensures
            setting_views(r@) == timbre_settings(*self),
    {
        let r: Vec<(&'static str, Setting)> = vec![
            ("attack_time", Setting::Time(self.attack)),
            ("hold_time", Setting::Time(self.hold)),
            ("decay_time", Setting::Time(self.decay)),
            ("sustain_level", Setting::Level(self.sustain)),
            ("release_time", Setting::Time(self.release)),
            ("gain", Setting::Level(self.gain)),
        ];
        assert(setting_views(r@) =~= timbre_settings(*self));
        r
    }
}

/// The effects of the track, in chain order.
#[derive(Debug, Clone, Copy, PartialEq, Eq, Structural)]
pub enum EffectKind {
    Lowpass,
    Delay,
}

/// The name of an effect.
pub open spec fn effect_label(k: EffectKind) -> Seq<char> {
    match k {
        EffectKind::Lowpass => "Lowpass"@,
        EffectKind::Delay => "Delay"@,
    }
}

impl EffectKind {
    /// The name shown for the effect.
    pub fn label(self) -> (r: &'static str)
        ensures
            r@ == effect_label(self),
    {
        match self {
            EffectKind::Lowpass => "Lowpass",
            EffectKind::Delay => "Delay",
        }
    }
}

/// One slot in the track's effect chain: enabled, and wet amount as a level.
#[derive(Debug, Clone, Copy, PartialEq, Eq, Structural)]
pub struct EffectSlot {
    pub kind: EffectKind,
    pub on: bool,
    pub mix: i32,
}

/// The effect chain of a new track: everything off.
pub open spec fn default_effects() -> Seq<EffectSlot> {
    seq![
        EffectSlot { kind: EffectKind::Lowpass, on: false, mix: LEVEL_ONE },
        EffectSlot { kind: EffectKind::Delay, on: false, mix: LEVEL_HALF },
    ]
}

/// The effect chain of a new track.
pub fn new_effects() -> (r: Vec<EffectSlot>)
    ensures
        r@ == default_effects(),
{
    let r = vec![
        EffectSlot { kind: EffectKind::Lowpass, on: false, mix: LEVEL_ONE },
        EffectSlot { kind: EffectKind::Delay, on: false, mix: LEVEL_HALF },
    ];
    assert(r@ =~= default_effects());
    r
}

} // verus!
