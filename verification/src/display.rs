//! What the editor shows: note names, note colors, grid lines, and snapping.
use vstd::prelude::*;

use crate::grid::{steps_per_beat, Steps, BAR_STEPS, STEPS_PER_BEAT, UNITS_PER_STEP};
use crate::pattern::Note;
use crate::pianoroll::Scheme;
use crate::text::{push_decimal, push_signed, split_words};
#[allow(unused_imports)]
use crate::grid::{beat_units, lemma_nearest_whole, nearest};
#[allow(unused_imports)]
use crate::pattern::NoteView;
#[allow(unused_imports)]
use crate::text::{decimal, signed_decimal, text_views, words};

verus! {

/// The octave that degree 0 lies in.
pub const BASE_OCTAVE: i32 = 4;

/// The base name of a degree: the configured name, or the plain number.
pub open spec fn degree_name(names: Seq<Seq<char>>, degree: int) -> Seq<char> {
    if degree < names.len() {
        names[degree]
    } else {
        decimal(degree as nat)
    }
}

/// The name of a pitch: the base name of its degree, and its octave.
pub open spec fn note_name(pitch: int, spo: int, names: Seq<char>) -> Seq<char> {
    degree_name(words(names), pitch % spo) + signed_decimal(BASE_OCTAVE + pitch / spo)
}

proof fn lemma_negative_divisor(p: int, s: int)
    requires
        s > 0,
    ensures
        p / (-s) == -(p / s),
        p % (-s) == p % s,
{
    assert(p / (-s) == -(p / s) && p % (-s) == p % s) by (nonlinear_arith)
        requires
            s > 0,
    ;
}

/// The degree within the octave, and the octave counted from degree 0. The
/// division is Euclidean: the degree is never negative.
pub fn degree_and_octave(pitch: i32, spo: i32) -> (r: (u32, i64))
    requires
        spo != 0,
    ensures
        r.0 == pitch as int % spo as int,
        r.1 == pitch as int / spo as int,
        -0x8000_0000 <= r.1 <= 0x8000_0000,
        spo > 0 ==> r.0 < spo && r.1 <= 0x7fff_ffff,
{
    let s: u64 = if spo < 0 {
        (-(spo as i64)) as u64
    } else {
        spo as u64
    };
    let back: u64 = 0x8000_0000 / s + 1;
    proof {
        assert(0x8000_0000 <= back * s <= 0x8000_0000 + s) by (nonlinear_arith)
            requires
                s > 0,
                back == 0x8000_0000u64 / s + 1,
        ;
    }
    let shifted: u64 = (pitch as i64 + (back * s) as i64) as u64;
    let q: u64 = shifted / s;
    let deg: u64 = shifted % s;
    proof {
        assert(shifted == pitch + back * s);
        lemma_shifted_division(pitch as int, back as int, s as int);
        lemma_negative_divisor(pitch as int, s as int);
        assert(q <= 0x2_0000_0000) by (nonlinear_arith)
            requires
                q == shifted / s,
                s > 0,
                shifted <= 0x2_0000_0000,
        ;
        assert(-0x8000_0000 <= pitch as int / s as int <= 0x7fff_ffff) by (nonlinear_arith)
            requires
                -0x8000_0000 <= pitch <= 0x7fff_ffff,
                s > 0,
        ;
    }
    let octave: i64 = q as i64 - back as i64;
    (
        deg as u32,
        if spo < 0 {
            -octave
        } else {
            octave
        },
    )
}

proof fn lemma_shifted_division(p: int, k: int, s: int)
    requires
        s > 0,
    ensures
        (p + k * s) / s == p / s + k,
        (p + k * s) % s == p % s,
{
    vstd::arithmetic::div_mod::lemma_fundamental_div_mod(p, s);
    vstd::arithmetic::div_mod::lemma_mod_bound(p, s);
    let q = p / s;
    let r = p % s;
    assert(p + k * s == s * (q + k) + r) by (nonlinear_arith)
        requires
            p == s * q + r,
    ;
    vstd::arithmetic::div_mod::lemma_fundamental_div_mod_converse(p + k * s, s, q + k, r);
}

/// Build the auto note name for a pitch: a user-configurable base spelling
/// (per degree within the octave) plus the current octave. Degrees without a
/// configured name fall back to plain degree numbers, so unfamiliar tunings
/// stay readable and users who know another notation can supply their own
/// names.
pub fn auto_note_name(pitch: i32, spo: i32, names_spec: &str) -> (r: String)
    requires
        spo != 0,
    ensures
        r@ == note_name(pitch as int, spo as int, names_spec@),
{
    let names = split_words(names_spec);
    let (degree, octave) = degree_and_octave(pitch, spo);
    let mut s = if (degree as usize) < names.len() {
        assert(text_views(names@)[degree as int] == names[degree as int]@);
        names[degree as usize].clone()
    } else {
        let mut number = String::new();
        push_decimal(&mut number, degree as u128);
        assert(number@ =~= decimal(degree as nat));
        number
    };
    push_signed(&mut s, BASE_OCTAVE as i64 + octave);
    s
}

/// What is written on a note: its own label, or the name of its pitch.
pub open spec fn caption(n: NoteView, spo: int, names: Seq<char>) -> Seq<char> {
    if n.label.len() == 0 {
        note_name(n.pitch_index as int, spo, names)
    } else {
        n.label
    }
}

/// What is written on a note.
pub fn note_caption(n: &Note, spo: i32, names: &str) -> (r: String)
    requires
        spo != 0,
    ensures
        r@ == caption(n@, spo as int, names@),
{
    if n.label.as_str().is_empty() {
        auto_note_name(n.pitch_index, spo, names)
    } else {
        n.label.clone()
    }
}

/// The note names that a tuning starts with: the usual twelve, or none.
pub open spec fn starting_names(n: usize) -> Seq<char> {
    if n == 12 {
        "C C# D D# E F F# G G# A A# B"@
    } else {
        Seq::empty()
    }
}

/// The note names that a tuning with `n` degrees starts with.
pub fn default_names(n: usize) -> (r: String)
    ensures
        r@ == starting_names(n),
{
    if n == 12 {
        String::from_str("C C# D D# E F F# G G# A A# B")
    } else {
        String::new()
    }
}

/// The color of a note. A hue is the fraction `hue / of`; saturation and value
/// are in percent.
#[derive(Debug, Clone, Copy, PartialEq, Eq, Structural)]
pub enum NoteColor {
    Rgb { red: u8, green: u8, blue: u8 },
    Hsv { hue: u32, of: u32, saturation: u32, value: u32 },
}

/// The color of a pitch: green, or a hue that tells the octave apart in steps
/// of 0.15, or one that goes once round within the octave.
pub open spec fn color_of(pitch: int, spo: int, scheme: Scheme) -> NoteColor {
    let n = if spo < 1 {
        1
    } else {
        spo
    };
    match scheme {
        Scheme::Flat => NoteColor::Rgb { red: 96, green: 200, blue: 96 },
        Scheme::ByOctave => NoteColor::Hsv {
            hue: (15 * (pitch / n) % 100) as u32,
            of: 100,
            saturation: 60,
            value: 75,
        },
        Scheme::ByPitchClass => NoteColor::Hsv {
            hue: (pitch % n) as u32,
            of: n as u32,
            saturation: 65,
            value: 75,
        },
    }
}

proof fn lemma_hue(octave: int, turn: int, rounds: int)
    requires
        turn == octave % 20,
        rounds == octave / 20,
    ensures
        15 * turn % 100 == 15 * octave % 100,
{
    assert(15 * octave == 100 * (3 * rounds) + 15 * turn);
    vstd::arithmetic::div_mod::lemma_mod_multiples_vanish(3 * rounds, 15 * turn, 100);
}

/// The color of a pitch.
pub fn note_color(pitch: i32, spo: i32, scheme: Scheme) -> (r: NoteColor)
    ensures
        r == color_of(pitch as int, spo as int, scheme),
{
    let n: i32 = if spo < 1 {
        1
    } else {
        spo
    };
    let (degree, octave) = degree_and_octave(pitch, n);
    match scheme {
        Scheme::Flat => NoteColor::Rgb { red: 96, green: 200, blue: 96 },
        Scheme::ByOctave => {
            // fifteen hundredths come round every twenty octaves
            let (turn, rounds) = degree_and_octave(octave as i32, 20);
            proof {
                lemma_hue(octave as int, turn as int, rounds as int);
            }
            NoteColor::Hsv { hue: 15 * turn % 100, of: 100, saturation: 60, value: 75 }
        },
        Scheme::ByPitchClass => NoteColor::Hsv {
            hue: degree,
            of: n as u32,
            saturation: 65,
            value: 75,
        },
    }
}

/// How a row of the grid is shaded.
#[derive(Debug, Clone, Copy, PartialEq, Eq, Structural)]
pub enum RowShade {
    /// The first degree of an octave.
    Root,
    Even,
    Odd,
}

/// The shade of a row: the first degree of an octave stands out, the others alternate.
pub open spec fn shade_of(pitch: int, spo: int) -> RowShade {
    if pitch % spo == 0 {
        RowShade::Root
    } else if pitch % 2 == 0 {
        RowShade::Even
    } else {
        RowShade::Odd
    }
}

/// The shade of a row.
pub fn row_shade(pitch: i32, spo: i32) -> (r: RowShade)
    requires
        spo != 0,
    ensures
        r == shade_of(pitch as int, spo as int),
        r == if pitch as int % spo as int == 0 {
            RowShade::Root
        } else if pitch as int % 2 == 0 {
            RowShade::Even
        } else {
            RowShade::Odd
        },
{
    let (degree, _) = degree_and_octave(pitch, spo);
    let (parity, _) = degree_and_octave(pitch, 2);
    if degree == 0 {
        RowShade::Root
    } else if parity == 0 {
        RowShade::Even
    } else {
        RowShade::Odd
    }
}

/// How strong a vertical grid line is.
#[derive(Debug, Clone, Copy, PartialEq, Eq, Structural)]
pub enum LineTier {
    Bar,
    Beat,
    Step,
}

/// The tier of the grid line at a step.
pub open spec fn tier_of(step: int) -> LineTier {
    if step % BAR_STEPS as int == 0 {
        LineTier::Bar
    } else if step % STEPS_PER_BEAT as int == 0 {
        LineTier::Beat
    } else {
        LineTier::Step
    }
}

/// The tier of the grid line at a step: bars stand out most, then beats.
pub fn line_tier(step: i32) -> (r: LineTier)
    ensures
        r == tier_of(step as int),
        r == if step as int % BAR_STEPS as int == 0 {
            LineTier::Bar
        } else if step as int % STEPS_PER_BEAT as int == 0 {
            LineTier::Beat
        } else {
            LineTier::Step
        },
{
    let (in_bar, _) = degree_and_octave(step, 16);
    let (in_beat, _) = degree_and_octave(step, 4);
    if in_bar == 0 {
        LineTier::Bar
    } else if in_beat == 0 {
        LineTier::Beat
    } else {
        LineTier::Step
    }
}

/// `v` moved to the nearest multiple of `snap`, a half away from zero; with no
/// snap it stays.
pub open spec fn snapped(v: int, snap: int) -> int {
    if snap < 1 {
        v
    } else if v < 0 {
        -(nearest(-v, snap) * snap)
    } else {
        nearest(v, snap) * snap
    }
}

/// Moves a grid position or distance to the nearest multiple of `snap`.
pub fn snap_to(v: i128, snap: u128) -> (r: i128)
    requires
        -0x1000_0000_0000_0000_0000_0000_0000_0000 <= v
            <= 0x1000_0000_0000_0000_0000_0000_0000_0000,
        snap <= 0x2000_0000_0000_0000_0000_0000_0000_0000,
    ensures
        r == snapped(v as int, snap as int),
{
    if snap < 1 {
        return v;
    }
    let size: u128 = if v < 0 {
        (-v) as u128
    } else {
        v as u128
    };
    let s: u128 = snap;
    let q: u128 = (2 * size + s) / (2 * s);
    proof {
        assert(q == nearest(size as int, s as int));
        assert(q * s <= size + s) by (nonlinear_arith)
            requires
                q == (2 * size + s) / (2 * s),
                s > 0,
        ;
    }
    if v < 0 {
        -((q * s) as i128)
    } else {
        (q * s) as i128
    }
}

/// The number of snap choices.
pub const SNAP_CHOICES: usize = 8;

/// The snap distances to choose from, in units: whole steps, then tuplets of a
/// beat.
pub open spec fn snap_choices(beat_unit: u32) -> Seq<int> {
    let beat = beat_units(beat_unit);
    let u = UNITS_PER_STEP as int;
    seq![u, 2 * u, 4 * u, 8 * u, 16 * u, beat / 3, beat / 5, beat / 7]
}

/// The names of the snap distances.
pub open spec fn snap_names() -> Seq<Seq<char>> {
    seq![
        "1"@,
        "2"@,
        "4"@,
        "8"@,
        "16"@,
        "Triplet (3)"@,
        "Quintuplet (5)"@,
        "Septuplet (7)"@,
    ]
}

/// The snap distances to choose from.
pub fn snap_values(beat_unit: u32) -> (r: Vec<Steps>)
    ensures
        r.len() == SNAP_CHOICES,
        forall|i: int| 0 <= i < r.len() ==> (#[trigger] r[i])@ == snap_choices(beat_unit)[i],
{
    let beat = steps_per_beat(beat_unit);
    vec![
        Steps::of(1),
        Steps::of(2),
        Steps::of(4),
        Steps::of(8),
        Steps::of(16),
        Steps::from_units(beat / 3),
        Steps::from_units(beat / 5),
        Steps::from_units(beat / 7),
    ]
}

/// The name of a snap distance.
pub fn snap_label(i: usize) -> (r: &'static str)
    requires
        i < SNAP_CHOICES,
    ensures
        r@ == snap_names()[i as int],
{
    match i {
        0 => "1",
        1 => "2",
        2 => "4",
        3 => "8",
        4 => "16",
        5 => "Triplet (3)",
        6 => "Quintuplet (5)",
        _ => "Septuplet (7)",
    }
}

/// Two snap distances count as the same when they differ by less than a
/// millionth of a step.
pub open spec fn same_snap(a: int, b: int) -> bool {
    -(UNITS_PER_STEP as int) < (a - b) * 1_000_000 < UNITS_PER_STEP
}

/// Whether two snap distances count as the same.
pub fn is_same_snap(a: Steps, b: Steps) -> (r: bool)
    ensures
        r == same_snap(a@ as int, b@ as int),
{
    let d: i128 = a.units() as i128 - b.units() as i128;
    -1_496_020_807_978 < d && d < 1_496_020_807_978
}

/// `p / d` rounded to the nearest integer, a half to the even one.
pub open spec fn nearest_even(p: int, d: int) -> int {
    let q = p / d;
    let twice = 2 * (p % d);
    if twice < d || (twice == d && q % 2 == 0) {
        q
    } else {
        q + 1
    }
}

/// A snap distance in steps, with three decimals; a half is rounded to even.
pub open spec fn snap_number(snap: nat) -> Seq<char> {
    let t = nearest_even(snap as int * 1000, UNITS_PER_STEP as int);
    decimal((t / 1000) as nat) + seq!['.'] + decimal((t / 100 % 10) as nat) + decimal(
        (t / 10 % 10) as nat,
    ) + decimal((t % 10) as nat)
}

/// The first of the snap choices from `from` on that is `snap`, or their number.
pub open spec fn snap_choice_from(snap: nat, beat_unit: u32, from: int) -> int
    decreases SNAP_CHOICES - from,
{
    if 0 <= from < SNAP_CHOICES && !same_snap(snap_choices(beat_unit)[from], snap as int) {
        snap_choice_from(snap, beat_unit, from + 1)
    } else {
        from
    }
}

/// How the current snap distance is shown: by its name, or in steps.
pub open spec fn snap_text_of(snap: nat, beat_unit: u32) -> Seq<char> {
    let i = snap_choice_from(snap, beat_unit, 0);
    if i < SNAP_CHOICES {
        snap_names()[i]
    } else {
        snap_number(snap)
    }
}

/// How the current snap distance is shown.
pub fn snap_text(snap: Steps, beat_unit: u32) -> (r: String)
    ensures
        r@ == snap_text_of(snap@, beat_unit),
{
    let values = snap_values(beat_unit);
    for i in 0..SNAP_CHOICES
        invariant
            values.len() == SNAP_CHOICES,
            forall|j: int|
                0 <= j < values.len() ==> (#[trigger] values[j])@ == snap_choices(beat_unit)[j],
            snap_choice_from(snap@, beat_unit, 0) == snap_choice_from(snap@, beat_unit, i as int),
    {
        if is_same_snap(values[i], snap) {
            return String::from_str(snap_label(i));
        }
    }
    let t = thousandths(snap);
    let mut s = String::new();
    let ghost whole = decimal((t / 1000) as nat);
    push_decimal(&mut s, t / 1000);
    assert(s@ =~= whole);
    s.push('.');
    push_decimal(&mut s, t / 100 % 10);
    push_decimal(&mut s, t / 10 % 10);
    push_decimal(&mut s, t % 10);
    assert(s@ =~= snap_number(snap@));
    s
}

/// A distance in thousandths of a step, a half rounded to the even one.
fn thousandths(snap: Steps) -> (r: u128)
    ensures
        r == nearest_even(snap@ as int * 1000, UNITS_PER_STEP as int),
        r <= 0x3ff_ffff_ffff_ffff_ffff,
{
    // the whole steps are whole thousands of thousandths, an even number
    let p: u128 = snap.part as u128 * 1000;
    let q: u128 = p / 1_496_020_807_977_696_000;
    let twice: u128 = 2 * (p % 1_496_020_807_977_696_000);
    let up = twice > 1_496_020_807_977_696_000 || (twice == 1_496_020_807_977_696_000 && q % 2
        == 1);
    let t: u128 = snap.whole as u128 * 1000 + q + if up {
        1
    } else {
        0
    };
    proof {
        let d = 1_496_020_807_977_696_000int;
        let w = snap.whole * 1000;
        assert(snap@ * 1000 == d * w + p);
        vstd::arithmetic::div_mod::lemma_fundamental_div_mod_converse(
            snap@ as int * 1000,
            d,
            w + q,
            p as int % d,
        );
    }
    t
}

/// What the mouse wheel does.
#[derive(Debug, Clone, Copy, PartialEq, Eq, Structural)]
pub enum WheelAction {
    Pan,
    Zoom,
    Scroll,
}

/// What the mouse wheel does, in priority order: with shift it pans, with ctrl
/// it zooms, over the top strip of the ruler it pans, over the rest of the
/// ruler it zooms, over the grid it scrolls.
pub fn wheel_action(shift: bool, ctrl: bool, over_strip: bool, over_ruler: bool) -> (r: WheelAction)
    ensures
        shift ==> r == WheelAction::Pan,
        !shift && ctrl ==> r == WheelAction::Zoom,
        !shift && !ctrl && over_strip ==> r == WheelAction::Pan,
        !shift && !ctrl && !over_strip && over_ruler ==> r == WheelAction::Zoom,
        !shift && !ctrl && !over_strip && !over_ruler ==> r == WheelAction::Scroll,
{
    if shift {
        WheelAction::Pan
    } else if ctrl {
        WheelAction::Zoom
    } else if over_strip {
        WheelAction::Pan
    } else if over_ruler {
        WheelAction::Zoom
    } else {
        WheelAction::Scroll
    }
}

/// An octave has as many rows as the tuning has degrees: octave `k` holds the
/// pitches from `k * spo` up to the next octave.
pub proof fn an_octave_is_a_block_of_rows(pitch: int, spo: int, k: int)
    requires
        spo > 0,
    ensures
        pitch / spo == k <==> k * spo <= pitch < (k + 1) * spo,
        pitch == (pitch / spo) * spo + pitch % spo,
        0 <= pitch % spo < spo,
{
    let q = pitch / spo;
    let r = pitch % spo;
    vstd::arithmetic::div_mod::lemma_fundamental_div_mod(pitch, spo);
    vstd::arithmetic::div_mod::lemma_mod_bound(pitch, spo);
    assert(q * spo == spo * q) by (nonlinear_arith);
    assert((k + 1) * spo == k * spo + spo) by (nonlinear_arith);
    if q < k {
        assert((q + 1) * spo <= k * spo) by (nonlinear_arith)
            requires
                q + 1 <= k,
                spo > 0,
        ;
        assert((q + 1) * spo == q * spo + spo) by (nonlinear_arith);
    } else if q > k {
        assert((k + 1) * spo <= q * spo) by (nonlinear_arith)
            requires
                k + 1 <= q,
                spo > 0,
        ;
    }
}

/// Snapping gives a multiple of the snap distance, at most half of it away, and
/// snapping again changes nothing.
pub proof fn snapping_is_to_the_nearest(v: int, snap: int)
    requires
        snap > 0,
    ensures
        snapped(v, snap) % snap == 0,
        2 * (snapped(v, snap) - v) <= snap,
        2 * (v - snapped(v, snap)) <= snap,
        snapped(snapped(v, snap), snap) == snapped(v, snap),
{
    let size = if v < 0 {
        -v
    } else {
        v
    };
    let q = nearest(size, snap);
    assert(q >= 0 && 2 * (q * snap) <= 2 * size + snap && 2 * size <= 2 * (q * snap) + snap)
        by (nonlinear_arith)
        requires
            q == (2 * size + snap) / (2 * snap),
            snap > 0,
            size >= 0,
    ;
    assert(q * snap >= 0) by (nonlinear_arith)
        requires
            q >= 0,
            snap > 0,
    ;
    lemma_nearest_whole(q, snap);
    vstd::arithmetic::div_mod::lemma_mod_multiples_basic(q, snap);
    vstd::arithmetic::div_mod::lemma_mod_multiples_basic(-q, snap);
    assert((-q) * snap == -(q * snap)) by (nonlinear_arith);
    if q * snap == 0 {
        assert(q == 0) by (nonlinear_arith)
            requires
                q * snap == 0,
                snap > 0,
        ;
    }
}

/// Snapping keeps order, treats both directions alike, and sends a distance half
/// way between two multiples away from zero.
pub proof fn snapping_is_monotone_and_odd(v: int, w: int, k: int, snap: int)
    requires
        snap > 0,
    ensures
        v <= w ==> snapped(v, snap) <= snapped(w, snap),
        snapped(-v, snap) == -snapped(v, snap),
        k >= 0 && 2 * v == 2 * (k * snap) + snap ==> snapped(v, snap) == (k + 1) * snap,
{
    lemma_snapped_size(v, snap);
    lemma_snapped_size(w, snap);
    if v == 0 {
        assert(nearest(0, snap) == 0) by (nonlinear_arith)
            requires
                snap > 0,
        ;
    }
    if 0 <= v <= w {
        lemma_nearest_ordered(v, w, snap);
    } else if v <= w < 0 {
        lemma_nearest_ordered(-w, -v, snap);
    }
    if k >= 0 && 2 * v == 2 * (k * snap) + snap {
        assert(k * snap >= 0) by (nonlinear_arith)
            requires
                k >= 0,
                snap > 0,
        ;
        assert((2 * v + snap) / (2 * snap) == k + 1) by (nonlinear_arith)
            requires
                2 * v == 2 * (k * snap) + snap,
                snap > 0,
        ;
    }
}

proof fn lemma_snapped_size(v: int, snap: int)
    requires
        snap > 0,
    ensures
        v >= 0 ==> nearest(v, snap) * snap >= 0,
        v < 0 ==> nearest(-v, snap) * snap >= 0,
{
    let size = if v < 0 {
        -v
    } else {
        v
    };
    let q = nearest(size, snap);
    assert(q >= 0) by (nonlinear_arith)
        requires
            q == (2 * size + snap) / (2 * snap),
            size >= 0,
            snap > 0,
    ;
    assert(q * snap >= 0) by (nonlinear_arith)
        requires
            q >= 0,
            snap > 0,
    ;
}

proof fn lemma_nearest_ordered(a: int, b: int, snap: int)
    requires
        0 <= a <= b,
        snap > 0,
    ensures
        nearest(a, snap) * snap <= nearest(b, snap) * snap,
{
    vstd::arithmetic::div_mod::lemma_div_is_ordered(2 * a + snap, 2 * b + snap, 2 * snap);
    let p = nearest(a, snap);
    let q = nearest(b, snap);
    assert(p * snap <= q * snap) by (nonlinear_arith)
        requires
            p <= q,
            snap > 0,
    ;
}

} // verus!
