//! Runtime-switchable tuning.
//!
//! A tuning is chosen by its kind. The kind fixes two things together: how many
//! rows an octave has on the grid, and the tuning system that turns a degree
//! into a frequency.
use vstd::prelude::*;

verus! {

/// Reference note number that sounds when `pitch_index == 0`; 48 == C4.
pub const REF_NOTE: i32 = 48;

/// The tunings that can be played. Selecting one also sets the number of rows
/// per octave on the piano-roll grid.
#[derive(Debug, Clone, Copy, PartialEq, Eq, Structural)]
pub enum TuningKind {
    Equal12,
    Edo7,
    Edo12,
    Edo19,
    Edo24,
    Edo31,
    Edo53,
    Just,
    Pythagorean,
    /// A scale that the user gives as ratios to the root.
    Custom,
}

/// A frequency ratio to the root, as the fraction `num / den`.
#[derive(Debug, Clone, Copy, PartialEq, Eq, Structural)]
pub struct Ratio {
    pub num: i32,
    pub den: i32,
}

/// A system that maps degrees to frequencies.
#[derive(Debug)]
pub enum TuningSystem {
    /// Twelve equal parts.
    EqualTemperament,
    /// The given number of equal parts.
    NEdo(u32),
    /// Five-limit just intonation.
    JustIntonation,
    /// Stacked pure fifths.
    Pythagorean,
    /// One ratio to the root per degree.
    Scale(Vec<Ratio>),
}

/// A dynamically chosen tuning.
#[derive(Debug)]
pub struct TuningWrapper(pub TuningSystem);

/// What a `TuningWrapper` is.
#[verifier::ext_equal]
pub enum TuningView {
    EqualTemperament,
    NEdo(u32),
    JustIntonation,
    Pythagorean,
    Scale(Seq<Ratio>),
}

impl View for TuningWrapper {
    type V = TuningView;

    open spec fn view(&self) -> TuningView {
        match self.0 {
            TuningSystem::EqualTemperament => TuningView::EqualTemperament,
            TuningSystem::NEdo(n) => TuningView::NEdo(n),
            TuningSystem::JustIntonation => TuningView::JustIntonation,
            TuningSystem::Pythagorean => TuningView::Pythagorean,
            TuningSystem::Scale(ratios) => TuningView::Scale(ratios@),
        }
    }
}

/// The tunings that a user can pick from a list, in its order.
pub open spec fn listed_tunings() -> Seq<TuningKind> {
    seq![
        TuningKind::Equal12,
        TuningKind::Edo7,
        TuningKind::Edo12,
        TuningKind::Edo19,
        TuningKind::Edo24,
        TuningKind::Edo31,
        TuningKind::Edo53,
        TuningKind::Just,
        TuningKind::Pythagorean,
    ]
}

/// The name of a tuning.
pub open spec fn tuning_label(kind: TuningKind) -> Seq<char> {
    match kind {
        TuningKind::Equal12 => "12-EDO (equal)"@,
        TuningKind::Edo7 => "7-EDO"@,
        TuningKind::Edo12 => "12-EDO"@,
        TuningKind::Edo19 => "19-EDO"@,
        TuningKind::Edo24 => "24-EDO"@,
        TuningKind::Edo31 => "31-EDO"@,
        TuningKind::Edo53 => "53-EDO"@,
        TuningKind::Just => "Just intonation"@,
        TuningKind::Pythagorean => "Pythagorean"@,
        TuningKind::Custom => "Custom"@,
    }
}

/// The number of rows per octave, where a custom scale has no notes yet.
pub open spec fn rows_per_octave(kind: TuningKind) -> usize {
    match kind {
        TuningKind::Equal12 => 12,
        TuningKind::Edo7 => 7,
        TuningKind::Edo12 => 12,
        TuningKind::Edo19 => 19,
        TuningKind::Edo24 => 24,
        TuningKind::Edo31 => 31,
        TuningKind::Edo53 => 53,
        TuningKind::Just => 12,
        TuningKind::Pythagorean => 12,
        TuningKind::Custom => 1,
    }
}

/// The tuning system of a kind, with the ratios of the custom scale.
pub open spec fn tuning_of(kind: TuningKind, ratios: Seq<Ratio>) -> TuningView {
    match kind {
        TuningKind::Equal12 => TuningView::EqualTemperament,
        TuningKind::Edo7 => TuningView::NEdo(7),
        TuningKind::Edo12 => TuningView::EqualTemperament,
        TuningKind::Edo19 => TuningView::NEdo(19),
        TuningKind::Edo24 => TuningView::NEdo(24),
        TuningKind::Edo31 => TuningView::NEdo(31),
        TuningKind::Edo53 => TuningView::NEdo(53),
        TuningKind::Just => TuningView::JustIntonation,
        TuningKind::Pythagorean => TuningView::Pythagorean,
        TuningKind::Custom => TuningView::Scale(ratios),
    }
}

/// Into how many degrees a tuning system divides the octave.
pub open spec fn divisions(t: TuningView) -> int {
    match t {
        TuningView::EqualTemperament => 12,
        TuningView::NEdo(n) => n as int,
        TuningView::JustIntonation => 12,
        TuningView::Pythagorean => 12,
        TuningView::Scale(ratios) => if ratios.len() < 1 {
            1
        } else {
            ratios.len() as int
        },
    }
}

/// The number of rows per octave, honoring the size of the custom scale.
pub open spec fn rows_with_scale(kind: TuningKind, ratios: Seq<Ratio>) -> int {
    if kind == TuningKind::Custom {
        if ratios.len() < 1 {
            1
        } else {
            ratios.len() as int
        }
    } else {
        rows_per_octave(kind) as int
    }
}

impl TuningKind {
    /// The tunings to choose from.
    pub fn all() -> (r: &'static [TuningKind])
        ensures
            r@ == listed_tunings(),
    {
        let r: &'static [TuningKind] = &[
            TuningKind::Equal12,
            TuningKind::Edo7,
            TuningKind::Edo12,
            TuningKind::Edo19,
            TuningKind::Edo24,
            TuningKind::Edo31,
            TuningKind::Edo53,
            TuningKind::Just,
            TuningKind::Pythagorean,
        ];
        assert(r@ =~= listed_tunings());
        r
    }

    /// The name shown for the tuning.
    pub fn label(self) -> (r: &'static str)
        ensures
            r@ == tuning_label(self),
    {
        match self {
            TuningKind::Equal12 => "12-EDO (equal)",
            TuningKind::Edo7 => "7-EDO",
            TuningKind::Edo12 => "12-EDO",
            TuningKind::Edo19 => "19-EDO",
            TuningKind::Edo24 => "24-EDO",
            TuningKind::Edo31 => "31-EDO",
            TuningKind::Edo53 => "53-EDO",
            TuningKind::Just => "Just intonation",
            TuningKind::Pythagorean => "Pythagorean",
            TuningKind::Custom => "Custom",
        }
    }

    /// Number of rows per octave on the piano-roll grid.
    pub fn steps_per_octave(self) -> (r: usize)
        ensures
            r == rows_per_octave(self),
    {
        match self {
            TuningKind::Equal12 | TuningKind::Edo12 => 12,
            TuningKind::Edo7 => 7,
            TuningKind::Edo19 => 19,
            TuningKind::Edo24 => 24,
            TuningKind::Edo31 => 31,
            TuningKind::Edo53 => 53,
            TuningKind::Just | TuningKind::Pythagorean => 12,
            TuningKind::Custom => 1,
        }
    }

    /// The tuning system of this kind; a custom scale starts without notes.
    pub fn make(self) -> (r: TuningWrapper)
        ensures
            r@ == tuning_of(self, Seq::empty()),
    {
        let system = match self {
            TuningKind::Equal12 | TuningKind::Edo12 => TuningSystem::EqualTemperament,
            TuningKind::Edo7 => TuningSystem::NEdo(7),
            TuningKind::Edo19 => TuningSystem::NEdo(19),
            TuningKind::Edo24 => TuningSystem::NEdo(24),
            TuningKind::Edo31 => TuningSystem::NEdo(31),
            TuningKind::Edo53 => TuningSystem::NEdo(53),
            TuningKind::Just => TuningSystem::JustIntonation,
            TuningKind::Pythagorean => TuningSystem::Pythagorean,
            TuningKind::Custom => TuningSystem::Scale(Vec::new()),
        };
        let r = TuningWrapper(system);
        assert(r@ =~= tuning_of(self, Seq::empty()));
        r
    }
}

/// Copies a list of ratios.
pub fn clone_ratios(v: &Vec<Ratio>) -> (r: Vec<Ratio>)
    ensures
        r@ == v@,
{
    let mut r: Vec<Ratio> = Vec::new();
    for i in 0..v.len()
        invariant
            r@ == v@.take(i as int),
    {
        r.push(v[i]);
        assert(r@ =~= v@.take(i + 1));
    }
    assert(v@.take(v.len() as int) =~= v@);
    r
}

/// The tuning system of a kind, with the given ratios as the custom scale.
pub fn resolve(kind: TuningKind, ratios: &Vec<Ratio>) -> (r: TuningWrapper)
    ensures
        r@ == tuning_of(kind, ratios@),
{
    if kind == TuningKind::Custom {
        TuningWrapper(TuningSystem::Scale(clone_ratios(ratios)))
    } else {
        kind.make()
    }
}

/// One choice of tuning drives both the grid and the sound: the octave has as
/// many rows as the tuning system has degrees.
pub proof fn grid_matches_tuning(kind: TuningKind, ratios: Seq<Ratio>)
    ensures
        rows_with_scale(kind, ratios) == divisions(tuning_of(kind, ratios)),
        rows_per_octave(kind) == divisions(tuning_of(kind, Seq::empty())),
        rows_with_scale(kind, ratios) >= 1,
{
}

} // verus!
