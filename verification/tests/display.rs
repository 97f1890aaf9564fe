use simple_pianoroll::display::{
    auto_note_name, default_names, degree_and_octave, is_same_snap, line_tier, note_caption,
    note_color, row_shade, snap_label, snap_text, snap_to, snap_values, wheel_action, LineTier,
    NoteColor, RowShade, WheelAction,
};
use simple_pianoroll::grid::{Steps, UNITS_PER_STEP};
use simple_pianoroll::pattern::Pattern;
use simple_pianoroll::pianoroll::Scheme;
use simple_pianoroll::text::{split_words, trim};
use simple_pianoroll::tuning::{resolve, Ratio, TuningKind, TuningSystem};

const TWELVE: &str = "C C# D D# E F F# G G# A A# B";
const U: u128 = UNITS_PER_STEP as u128;

fn st(units: u128) -> Steps {
    Steps::from_units(units)
}

#[test]
fn names_of_pitches() {
    assert_eq!(auto_note_name(0, 12, TWELVE), "C4");
    assert_eq!(auto_note_name(13, 12, TWELVE), "C#5");
    assert_eq!(auto_note_name(-1, 12, TWELVE), "B3");
    assert_eq!(auto_note_name(-61, 12, TWELVE), "B-2");
    assert_eq!(auto_note_name(20, 31, "a,b , c"), "204");
    assert_eq!(auto_note_name(33, 31, "a,b , c"), "c5");
    assert_eq!(auto_note_name(5, 7, ""), "54");
    // the division is Euclidean for negative octave sizes too
    assert_eq!(auto_note_name(13, -12, TWELVE), "C#3");
    assert_eq!(auto_note_name(-1, -12, TWELVE), "B5");
}

#[test]
fn words_of_a_text() {
    assert_eq!(split_words(" a,,b\tc "), vec!["a", "b", "c"]);
    assert!(split_words(" , ").is_empty());
    assert_eq!(trim(" \t a b \n"), "a b");
    assert_eq!(trim("  "), "");
}

#[test]
fn a_label_overrides_the_name() {
    let mut p = Pattern::empty(4);
    let id = p.add_note(0, st(0), st(U), 1);
    assert_eq!(note_caption(&p.notes[0], 12, TWELVE), "C4");
    p.set_label(id, "hook".to_string());
    assert_eq!(note_caption(&p.notes[0], 12, TWELVE), "hook");
}

#[test]
fn default_names_are_for_twelve() {
    assert_eq!(default_names(12), TWELVE);
    assert_eq!(default_names(19), "");
}

#[test]
fn degrees_and_octaves() {
    assert_eq!(degree_and_octave(25, 12), (1, 2));
    assert_eq!(degree_and_octave(-1, 12), (11, -1));
    assert_eq!(degree_and_octave(i32::MIN, 1), (0, i32::MIN as i64));
    assert_eq!(degree_and_octave(i32::MAX, i32::MAX), (0, 1));
}

#[test]
fn colors() {
    assert_eq!(note_color(5, 12, Scheme::Flat), NoteColor::Rgb { red: 96, green: 200, blue: 96 });
    assert_eq!(
        note_color(-1, 12, Scheme::ByOctave),
        NoteColor::Hsv { hue: 85, of: 100, saturation: 60, value: 75 }
    );
    assert_eq!(
        note_color(13, 12, Scheme::ByPitchClass),
        NoteColor::Hsv { hue: 1, of: 12, saturation: 65, value: 75 }
    );
    assert_eq!(
        note_color(13, 0, Scheme::ByPitchClass),
        NoteColor::Hsv { hue: 0, of: 1, saturation: 65, value: 75 }
    );
}

#[test]
fn schemes() {
    assert_eq!(Scheme::all(), &[Scheme::ByPitchClass, Scheme::ByOctave, Scheme::Flat]);
    let labels: Vec<&str> = Scheme::all().iter().map(|s| s.label()).collect();
    assert_eq!(labels, vec!["By pitch class", "By octave", "Flat"]);
}

#[test]
fn rows_and_lines() {
    assert_eq!(row_shade(24, 12), RowShade::Root);
    assert_eq!(row_shade(-2, 12), RowShade::Even);
    assert_eq!(row_shade(-3, 12), RowShade::Odd);
    assert_eq!(row_shade(-24, -12), RowShade::Root);
    assert_eq!(line_tier(-16), LineTier::Bar);
    assert_eq!(line_tier(20), LineTier::Beat);
    assert_eq!(line_tier(21), LineTier::Step);
}

#[test]
fn snapping() {
    assert_eq!(snap_to(5, 0), 5);
    assert_eq!(snap_to(5, 4), 4);
    assert_eq!(snap_to(6, 4), 8);
    assert_eq!(snap_to(-6, 4), -8);
    assert_eq!(snap_to(-5, 4), -4);
    assert_eq!(snap_to(-(1 << 100), 1), -(1 << 100));
    assert_eq!(snap_to(-8, 4), -8);
}

#[test]
fn snap_choices() {
    let values = snap_values(4);
    assert_eq!(values.len(), 8);
    assert_eq!(values[4], st(16 * U));
    assert_eq!(values[5].units() * 3, 4 * U);
    assert_eq!(values[6].units() * 5, 4 * U);
    assert_eq!(values[7].units() * 7, 4 * U);
    assert_eq!(snap_text(st(2 * U), 4), "2");
    assert_eq!(snap_text(st(4 * U / 3), 4), "Triplet (3)");
    assert_eq!(snap_label(7), "Septuplet (7)");
    assert_eq!(snap_text(st(3 * U + U / 8), 4), "3.125");
    assert_eq!(snap_text(st(0), 4), "0.000");
    // a half goes to the even digit
    assert_eq!(snap_text(st(5 * U / 16), 4), "0.312");
    assert_eq!(snap_text(st(7 * U / 16), 4), "0.438");
    assert_eq!(snap_text(st(5 * U / 16 + 1), 4), "0.313");
    assert!(is_same_snap(st(U), st(U + U / 1_000_000)));
    assert!(!is_same_snap(st(U), st(U + U / 1_000_000 + 1)));
}

#[test]
fn the_wheel() {
    assert_eq!(wheel_action(true, true, false, false), WheelAction::Pan);
    assert_eq!(wheel_action(false, true, true, true), WheelAction::Zoom);
    assert_eq!(wheel_action(false, false, true, true), WheelAction::Pan);
    assert_eq!(wheel_action(false, false, false, true), WheelAction::Zoom);
    assert_eq!(wheel_action(false, false, false, false), WheelAction::Scroll);
}

#[test]
fn tunings() {
    assert_eq!(TuningKind::all().len(), 9);
    assert_eq!(TuningKind::all()[0], TuningKind::Equal12);
    assert_eq!(TuningKind::all()[8], TuningKind::Pythagorean);
    assert_eq!(TuningKind::Edo53.label(), "53-EDO");
    assert_eq!(TuningKind::Just.label(), "Just intonation");
    for k in TuningKind::all() {
        let degrees = match k.make().0 {
            TuningSystem::EqualTemperament => 12,
            TuningSystem::NEdo(n) => n as usize,
            TuningSystem::JustIntonation => 12,
            TuningSystem::Pythagorean => 12,
            TuningSystem::Scale(r) => r.len(),
        };
        assert_eq!(k.steps_per_octave(), degrees);
    }
    let ratios = vec![Ratio { num: 1, den: 1 }, Ratio { num: 3, den: 2 }];
    match resolve(TuningKind::Custom, &ratios).0 {
        TuningSystem::Scale(r) => assert_eq!(r, ratios),
        _ => panic!("a custom tuning has a scale"),
    }
    assert!(matches!(resolve(TuningKind::Edo19, &ratios).0, TuningSystem::NEdo(19)));
}
