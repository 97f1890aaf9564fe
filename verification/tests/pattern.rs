use simple_pianoroll::events::{build_events, loop_samples, note_number, sample_events_into, NoteEvent};
use simple_pianoroll::grid::{
    position_at, sample_of_step, samples_per_step, step_at, steps_per_beat, Steps, Tempo,
    UNITS_PER_STEP,
};
use simple_pianoroll::level::DEFAULT_VELOCITY;
use simple_pianoroll::pattern::Pattern;
use simple_pianoroll::sort::{partition_point, stable_sort};

const U: u128 = UNITS_PER_STEP as u128;

fn st(units: u128) -> Steps {
    Steps::from_units(units)
}

#[test]
fn the_demo_is_an_arpeggio() {
    let p = Pattern::demo();
    assert_eq!(p.total_steps, 32);
    let pitches: Vec<i32> = p.notes.iter().map(|n| n.pitch_index).collect();
    assert_eq!(pitches, vec![9, 12, 16, 12, 9, 7, 4, 0]);
    for (i, n) in p.notes.iter().enumerate() {
        assert_eq!(n.id, i as u64);
        assert_eq!(n.start_step, st(4 * i as u128 * U));
        assert_eq!(n.length_steps, st(4 * U));
        assert_eq!(n.velocity, DEFAULT_VELOCITY);
        assert_eq!(n.label, "");
    }
    assert_eq!(p.next_id, 8);
    assert_eq!((p.beats_per_bar, p.beat_unit), (4, 4));
}

#[test]
fn an_empty_pattern_has_a_step() {
    let p = Pattern::empty(0);
    assert_eq!(p.total_steps, 1);
    assert!(p.notes.is_empty());
    assert_eq!(Pattern::empty(7).total_steps, 7);
}

#[test]
fn notes_get_their_own_identities() {
    let mut p = Pattern::empty(16);
    assert_eq!(p.add_note(3, st(0), st(0), 5), 0);
    assert_eq!(p.notes[0].length_steps, st(U));
    assert_eq!(p.add_note(4, st(U), st(2 * U), 5), 1);
    p.set_label(1, "lead".to_string());
    p.set_label(9, "nobody".to_string());
    assert_eq!(p.notes[0].label, "");
    let src = p.notes[1].clone();
    assert_eq!(p.duplicate(&src, st(5 * U), st(0)), 2);
    assert_eq!(p.notes[2].label, "lead");
    assert_eq!(p.notes[2].pitch_index, 4);
    assert_eq!((p.notes[2].start_step, p.notes[2].length_steps), (st(5 * U), st(U)));
    assert_eq!((p.notes[1].start_step, p.notes[1].length_steps), (st(U), st(2 * U)));
}

#[test]
fn shortening_trims_notes() {
    let mut p = Pattern::empty(16);
    p.add_note(0, st(0), st(4 * U), 1);
    p.add_note(0, st(6 * U), st(4 * U), 1);
    p.add_note(0, st(12 * U), st(4 * U), 1);
    p.set_len(8);
    assert_eq!(p.total_steps, 8);
    let at = |p: &Pattern, i: usize| (p.notes[i].start_step.units(), p.notes[i].length_steps.units());
    assert_eq!(at(&p, 0), (0, 4 * U));
    assert_eq!(at(&p, 1), (6 * U, 2 * U));
    assert_eq!(at(&p, 2), (7 * U, U));
    p.set_len(8);
    assert_eq!(at(&p, 1), (6 * U, 2 * U));
    p.set_len(0);
    assert_eq!(p.total_steps, 1);
    assert_eq!(at(&p, 1), (0, U));
}

#[test]
fn a_note_off_the_grid_keeps_a_step() {
    let mut p = Pattern::empty(16);
    p.add_note(0, st(7 * U + U / 2), st(4 * U), 1);
    p.set_len(8);
    assert_eq!(p.notes[0].start_step, st(7 * U + U / 2));
    assert_eq!(p.notes[0].length_steps, st(U));
}

#[test]
fn steps_and_samples() {
    let t = Tempo::bpm(120);
    let s = samples_per_step(48_000, t);
    assert_eq!(s.num / s.den, 6000);
    assert_eq!(s.num % s.den, 0);
    assert_eq!(loop_samples(&Pattern::empty(32), 48_000, t), 192_000);
    assert_eq!(loop_samples(&Pattern::empty(1), 0, t), 1);
    assert_eq!(step_at(5999, 48_000, t), 0);
    assert_eq!(step_at(6000, 48_000, t), 1);
    assert_eq!(sample_of_step(3 * U, 48_000, t), 18_000);
    assert_eq!(sample_of_step(U / 3, 48_000, t), 2000);
    assert_eq!(position_at(9000, 48_000, t).units(), U + U / 2);
    // 44100 * 60 / 133 / 4 = 4973.68...
    let odd = Tempo::bpm(133);
    assert_eq!(sample_of_step(U, 44_100, odd), 4974);
    assert_eq!(step_at(4973, 44_100, odd), 0);
    assert_eq!(step_at(4974, 44_100, odd), 1);
    // a tempo below one beat per minute counts as one
    let slow = Tempo { num: 0, den: 1 };
    assert_eq!(sample_of_step(U, 48_000, slow), 720_000);
    assert_eq!(steps_per_beat(4), 4 * U);
    assert_eq!(steps_per_beat(8), 2 * U);
    assert_eq!(steps_per_beat(0), 16 * U);
}

#[test]
fn notes_sound_from_the_reference() {
    assert_eq!(note_number(0), 48);
    assert_eq!(note_number(-48), 0);
    assert_eq!(note_number(-100), 0);
    assert_eq!(note_number(12), 60);
}

#[test]
fn events_of_a_sample() {
    let mut p = Pattern::empty(16);
    p.add_note(0, st(0), st(U), 11);
    p.add_note(2, st(U), st(U), 22);
    let t = Tempo::bpm(120);
    let mut out = vec![NoteEvent::ImmediateStop];
    sample_events_into(&p, 48_000, t, 6000, &mut out);
    assert_eq!(
        out,
        vec![
            NoteEvent::ImmediateStop,
            NoteEvent::NoteOff { time: 6000, channel: 0, note: 48, velocity: 11 },
            NoteEvent::NoteOn { time: 6000, channel: 0, note: 50, velocity: 22 },
        ]
    );
    let mut none = Vec::new();
    sample_events_into(&p, 48_000, t, 18_000, &mut none);
    assert!(none.is_empty());
}

#[test]
fn the_schedule_is_sorted_and_closed() {
    let mut p = Pattern::empty(4);
    p.add_note(2, st(2 * U), st(4 * U), 22);
    p.add_note(0, st(0), st(2 * U), 11);
    p.add_note(5, st(9 * U), st(U), 33);
    let t = Tempo::bpm(120);
    let events = build_events(&p, 48_000, t, 24_000);
    assert_eq!(
        events,
        vec![
            (0, NoteEvent::NoteOn { time: 0, channel: 0, note: 48, velocity: 11 }),
            (12_000, NoteEvent::NoteOn { time: 12_000, channel: 0, note: 50, velocity: 22 }),
            (12_000, NoteEvent::NoteOff { time: 12_000, channel: 0, note: 48, velocity: 11 }),
            (23_999, NoteEvent::NoteOff { time: 23_999, channel: 0, note: 50, velocity: 22 }),
        ]
    );
}

#[test]
fn sorting_keeps_equal_keys_in_order() {
    let on = |note: usize| NoteEvent::NoteOn { time: 0, channel: 0, note, velocity: 0 };
    let v = vec![(5, on(1)), (2, on(2)), (5, on(3)), (1, on(4)), (2, on(5))];
    let s = stable_sort(&v);
    assert_eq!(s, vec![(1, on(4)), (2, on(2)), (2, on(5)), (5, on(1)), (5, on(3))]);
    assert_eq!(partition_point(&s, 2), 1);
    assert_eq!(partition_point(&s, 3), 3);
    assert_eq!(partition_point(&s, 9), 5);
}

#[test]
fn shrinking_twice_is_shrinking_once() {
    let mut a = Pattern::empty(16);
    a.add_note(0, st(2 * U), st(9 * U), 1);
    a.add_note(1, st(7 * U + U / 2), st(3 * U), 1);
    a.add_note(2, st(12 * U), st(2 * U), 1);
    let mut b = a.clone();
    a.set_len(8);
    a.set_len(5);
    b.set_len(5);
    for (x, y) in a.notes.iter().zip(b.notes.iter()) {
        assert_eq!((x.start_step, x.length_steps), (y.start_step, y.length_steps));
    }
}

#[test]
fn positions_of_very_long_clips() {
    let last = Steps { whole: u64::MAX, part: UNITS_PER_STEP - 1 };
    assert_eq!(Steps::from_units(u128::MAX), last);
    assert_eq!(Steps::from_units(last.units()), last);
    // the same position, written in two ways
    assert_eq!(Steps { whole: 2, part: UNITS_PER_STEP }, Steps::of(3));
    assert_ne!(Steps { whole: 2, part: 1 }, Steps::of(2));
    let t = Tempo::bpm(120);
    assert_eq!(sample_of_step(Steps::of(1 << 40).units(), 48_000, t), 6000 << 40);
    assert_eq!(sample_of_step(last.units(), 48_000, t), usize::MAX);
    assert_eq!(position_at(6000 << 40, 48_000, t), Steps::of(1 << 40));
    assert_eq!(position_at(1, 0, t), last);
}
