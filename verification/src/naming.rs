//! What holds of the texts, names and colors that are shown.
use vstd::prelude::*;

#[allow(unused_imports)]
use crate::display::{
    caption, color_of, nearest_even, note_name, same_snap, shade_of, snap_choice_from,
    snap_choices, snap_names, snap_number, snap_text_of, starting_names, tier_of, LineTier,
    NoteColor, RowShade,
};
#[allow(unused_imports)]
use crate::grid::{beat_units, UNITS_PER_STEP};
#[allow(unused_imports)]
use crate::pattern::NoteView;
#[allow(unused_imports)]
use crate::pianoroll::{listed_schemes, scheme_label, Scheme};
#[allow(unused_imports)]
use crate::project::is_json;
#[allow(unused_imports)]
use crate::text::{decimal, is_separator, is_space, pieces, signed_decimal, words};
#[allow(unused_imports)]
use crate::timbre::{
    effect_label, listed_waveforms, timbre_settings, waveform_label, EffectKind, Setting, Timbre,
    Waveform,
};
#[allow(unused_imports)]
use crate::tuning::{
    listed_tunings, rows_per_octave, rows_with_scale, tuning_label, tuning_of, Ratio, TuningKind,
    TuningView,
};

verus! {

// ---------------------------------------------------------------------------
// Numbers
// ---------------------------------------------------------------------------

/// The number that a row of digits stands for.
pub open spec fn value_of(s: Seq<char>) -> int
    decreases s.len(),
{
    if s.len() == 0 {
        0
    } else {
        10 * value_of(s.drop_last()) + (s.last() as int - '0' as int)
    }
}

/// A number written in decimal has digits only, reads back as the number, and does
/// not start with a zero unless it is one.
pub proof fn decimals_read_back(n: nat)
    ensures
        decimal(n).len() > 0,
        value_of(decimal(n)) == n,
        forall|i: int| 0 <= i < decimal(n).len() ==> '0' <= #[trigger] decimal(n)[i] <= '9',
        n > 0 ==> decimal(n)[0] != '0',
        n == 0 ==> decimal(n).len() == 1,
    decreases n,
{
    let s = decimal(n);
    if n < 10 {
        assert(s.drop_last().len() == 0);
        assert(value_of(s.drop_last()) == 0);
    } else {
        decimals_read_back(n / 10);
        assert(s.drop_last() =~= decimal(n / 10));
        assert(s[0] == decimal(n / 10)[0]);
        assert forall|i: int| 0 <= i < s.len() implies '0' <= #[trigger] s[i] <= '9' by {
            if i < s.len() - 1 {
                assert(s[i] == decimal(n / 10)[i]);
            }
        }
    }
}

/// A signed number is written with a minus sign when, and only when, it is below
/// zero.
pub proof fn signed_decimals_read_back(n: int)
    ensures
        n < 0 ==> signed_decimal(n)[0] == '-' && value_of(signed_decimal(n).skip(1)) == -n,
        n >= 0 ==> signed_decimal(n)[0] != '-' && value_of(signed_decimal(n)) == n,
{
    if n < 0 {
        decimals_read_back((-n) as nat);
        assert(signed_decimal(n).skip(1) =~= decimal((-n) as nat));
    } else {
        decimals_read_back(n as nat);
    }
}

// ---------------------------------------------------------------------------
// Words
// ---------------------------------------------------------------------------

proof fn lemma_pieces_nonempty(s: Seq<char>)
    ensures
        pieces(s).len() > 0,
    decreases s.len(),
{
    if s.len() > 0 {
        lemma_pieces_nonempty(s.drop_last());
    }
}

proof fn lemma_pieces_split(a: Seq<char>, c: char, b: Seq<char>)
    requires
        is_separator(c),
    ensures
        pieces(a.push(c) + b) == pieces(a) + pieces(b),
    decreases b.len(),
{
    lemma_pieces_nonempty(a);
    lemma_pieces_nonempty(b);
    let s = a.push(c) + b;
    if b.len() == 0 {
        assert(s =~= a.push(c));
        assert(s.drop_last() =~= a);
        assert(pieces(s) =~= pieces(a) + pieces(b));
    } else {
        let rest = b.drop_last();
        lemma_pieces_nonempty(rest);
        lemma_pieces_split(a, c, rest);
        assert(s.drop_last() =~= a.push(c) + rest);
        assert(s.last() == b.last());
        let p = pieces(a) + pieces(rest);
        assert(p.last() == pieces(rest).last());
        assert(p.drop_last() =~= pieces(a) + pieces(rest).drop_last());
        assert(pieces(s) =~= pieces(a) + pieces(b));
    }
}

proof fn lemma_one_piece(w: Seq<char>)
    requires
        forall|i: int| 0 <= i < w.len() ==> !is_separator(#[trigger] w[i]),
    ensures
        pieces(w) == seq![w],
    decreases w.len(),
{
    if w.len() > 0 {
        let rest = w.drop_last();
        assert forall|i: int| 0 <= i < rest.len() implies !is_separator(#[trigger] rest[i]) by {
            assert(rest[i] == w[i]);
        }
        lemma_one_piece(rest);
        assert(w.last() == w[w.len() - 1]);
        assert(rest.push(w.last()) =~= w);
        assert(pieces(w) =~= seq![w]);
    } else {
        assert(w =~= Seq::<char>::empty());
        assert(pieces(w) =~= seq![w]);
    }
}

/// A comma, or white space, separates words: the words of a text are those before
/// it and then those behind it.
pub proof fn words_are_separated(a: Seq<char>, c: char, b: Seq<char>)
    requires
        c == ',' || is_space(c),
    ensures
        words(a.push(c) + b) == words(a) + words(b),
{
    lemma_pieces_split(a, c, b);
    Seq::filter_distributes_over_add(pieces(a), pieces(b), |w: Seq<char>| w.len() > 0);
}

/// A text without commas and white space is one word; an empty text has none.
pub proof fn a_text_without_separators_is_a_word(w: Seq<char>)
    requires
        forall|i: int| 0 <= i < w.len() ==> (#[trigger] w[i]) != ',' && !is_space(w[i]),
    ensures
        w.len() > 0 ==> words(w) == seq![w],
        w.len() == 0 ==> words(w).len() == 0,
{
    assert forall|i: int| 0 <= i < w.len() implies !is_separator(#[trigger] w[i]) by {
        assert(w[i] != ',');
    }
    lemma_one_piece(w);
    reveal(Seq::filter);
    let p = seq![w];
    assert(p.drop_last() =~= Seq::<Seq<char>>::empty());
    assert(p.last() == w);
    assert(Seq::<Seq<char>>::empty().filter(|w: Seq<char>| w.len() > 0).len() == 0);
    if w.len() > 0 {
        assert(words(w) =~= seq![w]);
    }
}

// ---------------------------------------------------------------------------
// Notes
// ---------------------------------------------------------------------------

proof fn lemma_row(pitch: int, spo: int, degree: int, octave: int)
    requires
        spo > 0,
        pitch == octave * spo + degree,
        0 <= degree < spo,
    ensures
        pitch % spo == degree,
        pitch / spo == octave,
{
    vstd::arithmetic::div_mod::lemma_fundamental_div_mod_converse(pitch, spo, octave, degree);
}

/// A pitch is called by the word for its degree, or the number of the degree where
/// there is no word for it, and by its octave; the reference is in octave 4.
pub proof fn a_pitch_is_named_by_degree_and_octave(
    pitch: int,
    spo: int,
    names: Seq<char>,
    degree: int,
    octave: int,
)
    requires
        spo > 0,
        pitch == octave * spo + degree,
        0 <= degree < spo,
    ensures
        degree < words(names).len() ==> note_name(pitch, spo, names) == words(names)[degree]
            + signed_decimal(octave + 4),
        degree >= words(names).len() ==> note_name(pitch, spo, names) == decimal(degree as nat)
            + signed_decimal(octave + 4),
{
    lemma_row(pitch, spo, degree, octave);
}

/// A note shows its own label, and the name of its pitch only where it has none.
pub proof fn a_label_hides_the_name(n: NoteView, spo: int, names: Seq<char>)
    ensures
        n.label.len() > 0 ==> caption(n, spo, names) == n.label,
        n.label.len() == 0 ==> caption(n, spo, names) == note_name(
            n.pitch_index as int,
            spo,
            names,
        ),
{
}

/// Only a tuning of twelve degrees starts with names.
pub proof fn twelve_degrees_have_names(n: usize)
    ensures
        n == 12 ==> starting_names(n) == "C C# D D# E F F# G G# A A# B"@,
        n != 12 ==> starting_names(n).len() == 0,
{
}

/// The first row of every octave is shaded as the root; of the other rows, each
/// second one is even.
pub proof fn rows_are_shaded_by_octave_and_parity(
    pitch: int,
    spo: int,
    degree: int,
    octave: int,
    half: int,
)
    requires
        spo > 0,
        pitch == octave * spo + degree,
        0 <= degree < spo,
    ensures
        degree == 0 ==> shade_of(pitch, spo) == RowShade::Root,
        degree != 0 && pitch == 2 * half ==> shade_of(pitch, spo) == RowShade::Even,
        degree != 0 && pitch == 2 * half + 1 ==> shade_of(pitch, spo) == RowShade::Odd,
{
    lemma_row(pitch, spo, degree, octave);
}

/// Every sixteenth line starts a bar, every fourth of the others a beat, and the rest
/// a step.
pub proof fn lines_mark_bars_and_beats(bar: int, beat: int, step: int)
    requires
        0 < beat < 4,
        0 < step < 4,
    ensures
        tier_of(16 * bar) == LineTier::Bar,
        tier_of(16 * bar + 4 * beat) == LineTier::Beat,
        tier_of(16 * bar + 4 * beat + step) == LineTier::Step,
        tier_of(16 * bar + step) == LineTier::Step,
{
    lemma_line(bar, 0, 0);
    lemma_line(bar, beat, 0);
    lemma_line(bar, beat, step);
    lemma_line(bar, 0, step);
}

proof fn lemma_line(bar: int, beat: int, step: int)
    requires
        0 <= beat < 4,
        0 <= step < 4,
    ensures
        (16 * bar + 4 * beat + step) % 16 == 4 * beat + step,
        (16 * bar + 4 * beat + step) % 4 == step,
{
    vstd::arithmetic::div_mod::lemma_fundamental_div_mod_converse(
        16 * bar + 4 * beat + step,
        16,
        bar,
        4 * beat + step,
    );
    vstd::arithmetic::div_mod::lemma_fundamental_div_mod_converse(
        16 * bar + 4 * beat + step,
        4,
        4 * bar + beat,
        step,
    );
}

/// Where an octave has no rows, colors are those of a single row.
pub proof fn without_rows_there_is_one_color_class(pitch: int, spo: int, scheme: Scheme)
    requires
        spo < 1,
    ensures
        color_of(pitch, spo, scheme) == color_of(pitch, 1, scheme),
{
}

/// By pitch class the hue goes round once in an octave, and is the same in every
/// octave; by octave it goes on by 0.15 of a round from octave to octave, and is the
/// same within one; flat colors are all the same.
pub proof fn colors_tell_degrees_or_octaves(pitch: int, spo: int, degree: int, octave: int)
    requires
        0 < spo <= i32::MAX,
        pitch == octave * spo + degree,
        0 <= degree < spo,
    ensures
        color_of(pitch, spo, Scheme::ByPitchClass) == (NoteColor::Hsv {
            hue: degree as u32,
            of: spo as u32,
            saturation: 65,
            value: 75,
        }),
        color_of(pitch, spo, Scheme::Flat) == (NoteColor::Rgb { red: 96, green: 200, blue: 96 }),
        color_of(pitch, spo, Scheme::ByOctave) matches NoteColor::Hsv { hue, of, saturation, value }
            && of == 100 && saturation == 60 && value == 75 && hue < 100 && (15 * octave - hue)
            % 100 == 0,
{
    lemma_row(pitch, spo, degree, octave);
    let h = 15 * octave % 100;
    assert((15 * octave - h) % 100 == 0);
}

// ---------------------------------------------------------------------------
// Snapping
// ---------------------------------------------------------------------------

/// The snap choices are 1, 2, 4, 8 and 16 steps, and a third, a fifth and a seventh
/// of a beat, rounded down to whole units.
pub proof fn snap_choices_are_steps_and_tuplets(beat_unit: u32, i: int, k: int, n: int)
    requires
        0 <= i < 5,
        (k == 5 && n == 3) || (k == 6 && n == 5) || (k == 7 && n == 7),
    ensures
        ({
            let c = snap_choices(beat_unit);
            &&& c.len() == 8
            &&& c[i] == vstd::arithmetic::power2::pow2(i as nat) * UNITS_PER_STEP
            &&& n * c[k] <= beat_units(beat_unit) < n * c[k] + n
        }),
{
    vstd::arithmetic::power2::lemma2_to64();
}

/// The snap choices are named by their steps, and the tuplets by their kind.
pub proof fn snap_choices_have_names(i: int)
    requires
        0 <= i < 5,
    ensures
        snap_names().len() == 8,
        snap_names()[i] == decimal(vstd::arithmetic::power2::pow2(i as nat)),
        snap_names()[5] == "Triplet (3)"@,
        snap_names()[6] == "Quintuplet (5)"@,
        snap_names()[7] == "Septuplet (7)"@,
{
    vstd::arithmetic::power2::lemma2_to64();
    reveal_strlit("1");
    reveal_strlit("2");
    reveal_strlit("4");
    reveal_strlit("8");
    reveal_strlit("16");
    reveal_with_fuel(decimal, 3);
    assert(snap_names()[0] =~= decimal(1));
    assert(snap_names()[1] =~= decimal(2));
    assert(snap_names()[2] =~= decimal(4));
    assert(snap_names()[3] =~= decimal(8));
    assert(snap_names()[4] =~= decimal(16));
}

proof fn lemma_choice(snap: nat, beat_unit: u32, from: int)
    requires
        0 <= from <= 8,
    ensures
        ({
            let i = snap_choice_from(snap, beat_unit, from);
            &&& from <= i <= 8
            &&& i < 8 ==> same_snap(snap_choices(beat_unit)[i], snap as int)
            &&& forall|j: int|
                from <= j < i ==> !same_snap(#[trigger] snap_choices(beat_unit)[j], snap as int)
        }),
    decreases 8 - from,
{
    if from < 8 && !same_snap(snap_choices(beat_unit)[from], snap as int) {
        lemma_choice(snap, beat_unit, from + 1);
    }
}

/// A snap distance is shown by the name of the first choice that it is, to a
/// millionth of a step; otherwise in steps.
pub proof fn a_snap_is_shown_by_its_name(snap: nat, beat_unit: u32, i: int)
    requires
        0 <= i < 8,
        forall|j: int|
            0 <= j < i ==> {
                let d = (#[trigger] snap_choices(beat_unit)[j] - snap) * 1_000_000;
                d <= -(UNITS_PER_STEP as int) || d >= UNITS_PER_STEP
            },
    ensures
        ({
            let d = (snap_choices(beat_unit)[i] - snap) * 1_000_000;
            -(UNITS_PER_STEP as int) < d < UNITS_PER_STEP ==> snap_text_of(snap, beat_unit)
                == snap_names()[i]
        }),
        (forall|j: int|
            0 <= j < 8 ==> {
                let d = (#[trigger] snap_choices(beat_unit)[j] - snap) * 1_000_000;
                d <= -(UNITS_PER_STEP as int) || d >= UNITS_PER_STEP
            }) ==> snap_text_of(snap, beat_unit) == snap_number(snap),
{
    lemma_choice(snap, beat_unit, 0);
    let k = snap_choice_from(snap, beat_unit, 0);
    if k < i {
        assert(same_snap(snap_choices(beat_unit)[k], snap as int));
    }
    if k > i {
        assert(!same_snap(snap_choices(beat_unit)[i], snap as int));
    }
    if k < 8 {
        assert(same_snap(snap_choices(beat_unit)[k], snap as int));
    }
}

/// A snap distance in steps has three decimals: `t` thousandths, the nearest number
/// of them, and the even one of two that are as near.
pub proof fn a_snap_number_is_the_nearest_thousandth(snap: nat) -> (t: int)
    ensures
        t >= 0,
        2 * (t * UNITS_PER_STEP - snap * 1000) <= UNITS_PER_STEP,
        2 * (snap * 1000 - t * UNITS_PER_STEP) <= UNITS_PER_STEP,
        2 * (t * UNITS_PER_STEP - snap * 1000) == UNITS_PER_STEP || 2 * (snap * 1000 - t
            * UNITS_PER_STEP) == UNITS_PER_STEP ==> t % 2 == 0,
        ({
            let s = snap_number(snap);
            let n = s.len() - 4;
            &&& n >= 1
            &&& s[n] == '.'
            &&& 1000 * value_of(s.take(n)) + 100 * (s[n + 1] as int - '0' as int) + 10 * (s[n + 2]
                as int - '0' as int) + (s[n + 3] as int - '0' as int) == t
        }),
{
    let t = nearest_even(snap as int * 1000, UNITS_PER_STEP as int);
    lemma_nearest_even(snap as int * 1000, UNITS_PER_STEP as int);
    lemma_three_decimals(t as nat);
    assert(snap_number(snap) == three_decimals(t as nat));
    t
}

proof fn lemma_nearest_even(p: int, d: int)
    requires
        p >= 0,
        d > 0,
    ensures
        ({
            let t = nearest_even(p, d);
            &&& t >= 0
            &&& 2 * (t * d - p) <= d
            &&& 2 * (p - t * d) <= d
            &&& 2 * (t * d - p) == d || 2 * (p - t * d) == d ==> t % 2 == 0
        }),
{
    let q = p / d;
    vstd::arithmetic::div_mod::lemma_fundamental_div_mod(p, d);
    vstd::arithmetic::div_mod::lemma_mod_bound(p, d);
    assert(q >= 0 && d * q == q * d && (q + 1) * d == q * d + d) by (nonlinear_arith)
        requires
            q == p / d,
            p >= 0,
            d > 0,
    ;
}

spec fn three_decimals(t: nat) -> Seq<char> {
    decimal((t / 1000) as nat) + seq!['.'] + decimal((t / 100 % 10) as nat) + decimal(
        (t / 10 % 10) as nat,
    ) + decimal((t % 10) as nat)
}

proof fn lemma_digits(t: nat)
    ensures
        1000 * (t / 1000) + 100 * (t / 100 % 10) + 10 * (t / 10 % 10) + t % 10 == t,
{
    let a = t / 10;
    let b = a / 10;
    let c = b / 10;
    assert(t == 10 * a + t % 10);
    assert(a == 10 * b + a % 10);
    assert(b == 10 * c + b % 10);
    assert(b == t / 100);
    assert(c == t / 1000);
}

proof fn lemma_one_digit(x: nat)
    requires
        x < 10,
    ensures
        decimal(x).len() == 1,
        decimal(x)[0] as int - '0' as int == x,
{
}

proof fn lemma_joined_digits(a: nat, x: nat, y: nat, z: nat)
    requires
        x < 10,
        y < 10,
        z < 10,
    ensures
        ({
            let s = decimal(a) + seq!['.'] + decimal(x) + decimal(y) + decimal(z);
            let n = s.len() - 4;
            &&& n >= 1
            &&& s[n] == '.'
            &&& value_of(s.take(n)) == a
            &&& s[n + 1] as int - '0' as int == x
            &&& s[n + 2] as int - '0' as int == y
            &&& s[n + 3] as int - '0' as int == z
        }),
{
    decimals_read_back(a);
    lemma_one_digit(x);
    lemma_one_digit(y);
    lemma_one_digit(z);
    let s = decimal(a) + seq!['.'] + decimal(x) + decimal(y) + decimal(z);
    assert(s.take(s.len() - 4) =~= decimal(a));
}

proof fn lemma_three_decimals(t: nat)
    ensures
        ({
            let s = three_decimals(t);
            let n = s.len() - 4;
            &&& n >= 1
            &&& s[n] == '.'
            &&& 1000 * value_of(s.take(n)) + 100 * (s[n + 1] as int - '0' as int) + 10 * (s[n + 2]
                as int - '0' as int) + (s[n + 3] as int - '0' as int) == t
        }),
{
    lemma_digits(t);
    lemma_joined_digits(
        (t / 1000) as nat,
        (t / 100 % 10) as nat,
        (t / 10 % 10) as nat,
        (t % 10) as nat,
    );
}

// ---------------------------------------------------------------------------
// Tunings, waveforms and schemes
// ---------------------------------------------------------------------------

/// An equal division of the octave is called by the number of its parts; it has that
/// many rows and that many parts.
pub proof fn equal_divisions_are_named_by_their_parts(kind: TuningKind, ratios: Seq<Ratio>)
    ensures
        tuning_of(kind, ratios) matches TuningView::NEdo(n) ==> {
            &&& rows_per_octave(kind) == n
            &&& tuning_label(kind) == decimal(n as nat) + "-EDO"@
        },
        kind == TuningKind::Edo7 ==> tuning_of(kind, ratios) == TuningView::NEdo(7),
        kind == TuningKind::Edo19 ==> tuning_of(kind, ratios) == TuningView::NEdo(19),
        kind == TuningKind::Edo24 ==> tuning_of(kind, ratios) == TuningView::NEdo(24),
        kind == TuningKind::Edo31 ==> tuning_of(kind, ratios) == TuningView::NEdo(31),
        kind == TuningKind::Edo53 ==> tuning_of(kind, ratios) == TuningView::NEdo(53),
        kind == TuningKind::Equal12 || kind == TuningKind::Edo12 ==> tuning_of(kind, ratios)
            == TuningView::EqualTemperament && rows_per_octave(kind) == 12,
        kind == TuningKind::Just ==> tuning_of(kind, ratios) == TuningView::JustIntonation
            && rows_per_octave(kind) == 12,
        kind == TuningKind::Pythagorean ==> tuning_of(kind, ratios) == TuningView::Pythagorean
            && rows_per_octave(kind) == 12,
        kind == TuningKind::Custom ==> tuning_of(kind, ratios) == TuningView::Scale(ratios),
        kind == TuningKind::Edo12 ==> tuning_label(kind) == decimal(12) + "-EDO"@,
{
    reveal_strlit("-EDO");
    reveal_strlit("7-EDO");
    reveal_strlit("12-EDO");
    reveal_strlit("19-EDO");
    reveal_strlit("24-EDO");
    reveal_strlit("31-EDO");
    reveal_strlit("53-EDO");
    reveal_with_fuel(decimal, 3);
    assert(tuning_label(TuningKind::Edo7) =~= decimal(7) + "-EDO"@);
    assert(tuning_label(TuningKind::Edo12) =~= decimal(12) + "-EDO"@);
    assert(tuning_label(TuningKind::Edo19) =~= decimal(19) + "-EDO"@);
    assert(tuning_label(TuningKind::Edo24) =~= decimal(24) + "-EDO"@);
    assert(tuning_label(TuningKind::Edo31) =~= decimal(31) + "-EDO"@);
    assert(tuning_label(TuningKind::Edo53) =~= decimal(53) + "-EDO"@);
}

/// A custom scale has a row for each of its ratios, and at least one.
pub proof fn a_custom_scale_has_a_row_per_ratio(kind: TuningKind, ratios: Seq<Ratio>)
    ensures
        kind == TuningKind::Custom && ratios.len() > 0 ==> rows_with_scale(kind, ratios)
            == ratios.len(),
        kind == TuningKind::Custom && ratios.len() == 0 ==> rows_with_scale(kind, ratios) == 1,
        kind != TuningKind::Custom ==> rows_with_scale(kind, ratios) == rows_per_octave(kind),
{
}

/// The list offers every tuning but the custom one, each once.
pub proof fn every_tuning_is_offered_once(kind: TuningKind, i: int, j: int)
    ensures
        listed_tunings().contains(kind) <==> kind != TuningKind::Custom,
        0 <= i < j < listed_tunings().len() ==> listed_tunings()[i] != listed_tunings()[j],
{
    let s = listed_tunings();
    assert(s.len() == 9);
    assert(s[0] == TuningKind::Equal12 && s[1] == TuningKind::Edo7 && s[2] == TuningKind::Edo12);
    assert(s[3] == TuningKind::Edo19 && s[4] == TuningKind::Edo24 && s[5] == TuningKind::Edo31);
    assert(s[6] == TuningKind::Edo53 && s[7] == TuningKind::Just && s[8]
        == TuningKind::Pythagorean);
}

/// The lists offer every waveform and every color scheme, each once.
pub proof fn every_waveform_and_scheme_is_offered_once(w: Waveform, s: Scheme, i: int, j: int)
    ensures
        listed_waveforms().contains(w),
        listed_schemes().contains(s),
        0 <= i < j < listed_waveforms().len() ==> listed_waveforms()[i] != listed_waveforms()[j],
        0 <= i < j < listed_schemes().len() ==> listed_schemes()[i] != listed_schemes()[j],
{
    let a = listed_waveforms();
    let b = listed_schemes();
    assert(a.len() == 4 && b.len() == 3);
    assert(a[0] == Waveform::Sine && a[1] == Waveform::Triangle);
    assert(a[2] == Waveform::Saw && a[3] == Waveform::Square);
    assert(b.contains(b[0]) && b.contains(b[1]) && b.contains(b[2]));
}

/// Waveforms, tunings and effects go by names of their own.
pub proof fn names_tell_things_apart(
    a: Waveform,
    b: Waveform,
    s: TuningKind,
    t: TuningKind,
    x: EffectKind,
    y: EffectKind,
)
    ensures
        waveform_label(a) == waveform_label(b) ==> a == b,
        tuning_label(s) == tuning_label(t) ==> s == t,
        effect_label(x) == effect_label(y) ==> x == y,
        scheme_label(Scheme::ByPitchClass) == "By pitch class"@,
        scheme_label(Scheme::ByOctave) == "By octave"@,
        scheme_label(Scheme::Flat) == "Flat"@,
        waveform_label(Waveform::Sine) == "Sine"@,
        waveform_label(Waveform::Triangle) == "Triangle"@,
        waveform_label(Waveform::Saw) == "Saw"@,
        waveform_label(Waveform::Square) == "Square"@,
        effect_label(EffectKind::Lowpass) == "Lowpass"@,
        effect_label(EffectKind::Delay) == "Delay"@,
        tuning_label(TuningKind::Just) == "Just intonation"@,
        tuning_label(TuningKind::Pythagorean) == "Pythagorean"@,
        tuning_label(TuningKind::Custom) == "Custom"@,
        tuning_label(TuningKind::Equal12) == "12-EDO (equal)"@,
{
    reveal_strlit("Sine");
    reveal_strlit("Triangle");
    reveal_strlit("Saw");
    reveal_strlit("Square");
    reveal_strlit("Lowpass");
    reveal_strlit("Delay");
    reveal_strlit("12-EDO (equal)");
    reveal_strlit("7-EDO");
    reveal_strlit("12-EDO");
    reveal_strlit("19-EDO");
    reveal_strlit("24-EDO");
    reveal_strlit("31-EDO");
    reveal_strlit("53-EDO");
    reveal_strlit("Just intonation");
    reveal_strlit("Pythagorean");
    reveal_strlit("Custom");
    assert(effect_label(x).len() != effect_label(y).len() || x == y);
    assert(waveform_label(a)[1] != waveform_label(b)[1] || waveform_label(a).len()
        != waveform_label(b).len() || a == b);
    assert(tuning_label(s)[0] != tuning_label(t)[0] || tuning_label(s)[1] != tuning_label(t)[1]
        || tuning_label(s).len() != tuning_label(t).len() || s == t);
}

/// A timbre sets each parameter of the generator to its own value, and nothing else.
pub proof fn a_timbre_sets_its_parameters(t: Timbre)
    ensures
        ({
            let s = timbre_settings(t);
            &&& s.len() == 6
            &&& s.contains(("attack_time"@, Setting::Time(t.attack)))
            &&& s.contains(("hold_time"@, Setting::Time(t.hold)))
            &&& s.contains(("decay_time"@, Setting::Time(t.decay)))
            &&& s.contains(("sustain_level"@, Setting::Level(t.sustain)))
            &&& s.contains(("release_time"@, Setting::Time(t.release)))
            &&& s.contains(("gain"@, Setting::Level(t.gain)))
        }),
{
    let s = timbre_settings(t);
    assert(s.contains(s[0]) && s.contains(s[1]) && s.contains(s[2]));
    assert(s.contains(s[3]) && s.contains(s[4]) && s.contains(s[5]));
}

/// A project file is one that ends in `json`.
pub proof fn project_files_end_in_json(extension: Seq<char>)
    ensures
        is_json(Some(extension)) <==> extension == "json"@,
        !is_json(None),
{
}

} // verus!
