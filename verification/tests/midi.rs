use simple_pianoroll::grid::{Steps, Tempo, UNITS_PER_STEP};
use simple_pianoroll::level::LEVEL_ONE;
use simple_pianoroll::midi::{build_clips, import_file, parse, ImportData, ImportError, ImportedTrack};
use simple_pianoroll::smf::{read_midi, text_from_bytes, EventKind, MidiFile, ReadError, TimeDivision, TimedEvent};

fn steps(s: Steps) -> f64 {
    s.units() as f64 / UNITS_PER_STEP as f64
}

fn level(x: i32) -> f32 {
    x as f32 / LEVEL_ONE as f32
}

fn bpm(t: Tempo) -> f32 {
    t.num as f32 / t.den as f32
}

fn chunk(file: &mut Vec<u8>, track: &[u8]) {
    file.extend_from_slice(b"MTrk");
    file.extend_from_slice(&(track.len() as u32).to_be_bytes());
    file.extend_from_slice(track);
}

fn header(format: u8, tracks: u8, division: [u8; 2]) -> Vec<u8> {
    let mut file = Vec::new();
    file.extend_from_slice(b"MThd");
    file.extend_from_slice(&[0, 0, 0, 6, 0, format, 0, tracks, division[0], division[1]]);
    file
}

fn event(delta: u32, kind: EventKind) -> TimedEvent {
    TimedEvent { delta, kind }
}

fn metrical(ticks: u16, tracks: Vec<Vec<TimedEvent>>) -> MidiFile {
    MidiFile { timing: TimeDivision::Metrical(ticks), tracks }
}

#[test]
fn parses_a_simple_smf() {
    // format-0, 1 track, 480 ticks per quarter; one C4 (MIDI 60) note of one
    // quarter, then end-of-track.
    let mut file = Vec::new();
    file.extend_from_slice(b"MThd");
    file.extend_from_slice(&[0, 0, 0, 6, 0, 0, 0, 1, 0x01, 0xE0]);
    let track: [u8; 13] = [
        0x00, 0x90, 0x3C, 0x7F, // delta 0, note on C4 vel 127
        0x83, 0x60, 0x80, 0x3C, 0x7F, // delta 480, note off
        0x00, 0xFF, 0x2F, 0x00, // end of track
    ];
    file.extend_from_slice(b"MTrk");
    file.extend_from_slice(&(track.len() as u32).to_be_bytes());
    file.extend_from_slice(&track);

    let data = parse(&file).unwrap();
    assert_eq!(data.ppq, 480);
    assert_eq!(data.tracks.len(), 1);
    let notes: Vec<(u64, u8, f32, u64)> =
        data.tracks[0].notes.iter().map(|n| (n.0, n.1, level(n.2), n.3)).collect();
    assert_eq!(notes, vec![(0, 60, 1.0, 480)]);
    assert_eq!(bpm(data.tempo), 120.0);
    assert_eq!(data.beats_per_bar, 4);
    assert_eq!(data.beat_unit, 4);

    let (clips, _) = build_clips(&data, false);
    assert_eq!(clips.len(), 1);
    assert_eq!(clips[0].notes.len(), 1);
    let n = &clips[0].notes[0];
    assert_eq!(n.pitch_index, 12); // MIDI 60 - 48
    assert_eq!(steps(n.start_step), 0.0);
    assert_eq!(steps(n.length_steps), 4.0); // one quarter = 4 steps
}

#[test]
fn separate_tracks_become_separate_clips() {
    let mut file = Vec::new();
    file.extend_from_slice(b"MThd");
    file.extend_from_slice(&[0, 0, 0, 6, 0, 1, 0, 2, 0x01, 0xE0]); // format 1, 2 tracks
    let t1: [u8; 8] = [
        0x00, 0x90, 0x3C, 0x7F, // C4 on
        0x00, 0x80, 0x3C, 0x00, // off (delta 0)
    ];
    let t2: [u8; 8] = [
        0x00, 0x90, 0x40, 0x7F, // C5 on
        0x00, 0x80, 0x40, 0x00,
    ];
    for t in [&t1, &t2] {
        file.extend_from_slice(b"MTrk");
        file.extend_from_slice(&(t.len() as u32).to_be_bytes());
        file.extend_from_slice(t);
    }
    let data = parse(&file).unwrap();
    assert_eq!(data.tracks.len(), 2);
    let (clips, names) = build_clips(&data, true);
    assert_eq!(clips.len(), 2);
    assert_eq!(names, vec!["Track 1", "Track 2"]);
    assert_eq!(clips[0].notes[0].pitch_index, 12);
    assert_eq!(clips[1].notes[0].pitch_index, 16);
    // merged mode: both notes in one clip
    let (merged, _) = build_clips(&data, false);
    assert_eq!(merged.len(), 1);
    assert_eq!(merged[0].notes.len(), 2);
}

#[test]
fn metadata_of_the_file_is_read() {
    let mut file = header(0, 1, [0x00, 0x60]);
    chunk(
        &mut file,
        &[
            0x00, 0xFF, 0x03, 0x07, b' ', b'L', b'e', b'a', b'd', b' ', b' ', // name
            0x00, 0xFF, 0x51, 0x03, 0x06, 0x1A, 0x80, // 400000 us per quarter
            0x00, 0xFF, 0x51, 0x03, 0x0F, 0x42, 0x40, // a later tempo
            0x00, 0xFF, 0x58, 0x04, 0x06, 0x03, 0x18, 0x08, // 6/8
            0x00, 0xFF, 0x2F, 0x00,
        ],
    );
    let data = parse(&file).unwrap();
    assert_eq!(data.ppq, 96);
    assert_eq!(data.tracks[0].name, "Lead");
    assert_eq!(bpm(data.tempo), 150.0);
    assert_eq!(data.beats_per_bar, 6);
    assert_eq!(data.beat_unit, 8);
    let (clips, names) = build_clips(&data, false);
    assert_eq!(names, vec!["Imported"]);
    assert_eq!(clips[0].beats_per_bar, 6);
    assert_eq!(clips[0].beat_unit, 8);
    assert_eq!(clips[0].total_steps, 8);
}

#[test]
fn the_decoder_is_asked() {
    let mut file = header(0, 1, [0x00, 0x60]);
    chunk(&mut file, &[0x05, 0x90, 0x3C, 0x40, 0x00, 0xFF, 0x2F, 0x00]);
    let read = read_midi(&file).unwrap();
    assert_eq!(read.timing, TimeDivision::Metrical(96));
    assert_eq!(read.tracks.len(), 1);
    assert_eq!(read.tracks[0].len(), 2);
    assert_eq!(read.tracks[0][0].delta, 5);
    assert!(matches!(read.tracks[0][0].kind, EventKind::NoteOn { key: 60, vel: 64 }));
    assert!(matches!(read.tracks[0][1].kind, EventKind::Other));
    assert!(matches!(read_midi(b"no midi"), Err(ReadError::Refused(_))));
}

#[test]
fn text_that_is_not_utf8_is_replaced() {
    assert_eq!(text_from_bytes(&vec![0x41, 0xC3, 0xA9]), "A\u{e9}");
    assert_eq!(text_from_bytes(&vec![0x41, 0xFF, 0x42]), "A\u{fffd}B");
}

#[test]
fn an_unreadable_file_is_refused() {
    let err = parse(b"RIFFxxxx").unwrap_err();
    assert!(matches!(err, ImportError::InvalidFile(_)));
    assert!(err.message().starts_with("invalid MIDI file: "));
    assert!(err.message().len() > "invalid MIDI file: ".len());
}

#[test]
fn a_frame_rate_that_does_not_exist_is_refused() {
    let file = header(0, 1, [0x80, 0x01]);
    let err = parse(&file).unwrap_err();
    assert!(matches!(err, ImportError::InvalidFrameRate));
    assert_eq!(err.message(), "invalid MIDI file: invalid midi: invalid midi header");
}

#[test]
fn smpte_time_is_refused() {
    // -25 frames per second, 40 ticks per frame
    let mut file = header(0, 1, [0xE7, 40]);
    chunk(&mut file, &[0x00, 0xFF, 0x2F, 0x00]);
    let err = parse(&file).unwrap_err();
    assert!(matches!(err, ImportError::SmpteTimeDivision));
    assert_eq!(err.message(), "SMPTE time division is not supported");
}

#[test]
fn a_zero_time_division_is_refused() {
    let mut file = header(0, 1, [0, 0]);
    chunk(&mut file, &[0x00, 0xFF, 0x2F, 0x00]);
    let err = parse(&file).unwrap_err();
    assert!(matches!(err, ImportError::ZeroTimeDivision));
    assert_eq!(err.message(), "time division is zero");
}

#[test]
fn a_file_without_tracks_is_refused() {
    let file = header(1, 0, [0x01, 0xE0]);
    let err = parse(&file).unwrap_err();
    assert!(matches!(err, ImportError::NoTracks));
    assert_eq!(err.message(), "no tracks found in the file");
}

#[test]
fn a_note_on_without_velocity_releases() {
    let file = metrical(
        480,
        vec![vec![
            event(10, EventKind::NoteOn { key: 50, vel: 127 }),
            event(20, EventKind::NoteOn { key: 50, vel: 0 }),
        ]],
    );
    let data = import_file(&file).unwrap();
    assert_eq!(data.tracks[0].notes, vec![(10, 50, LEVEL_ONE, 20)]);
}

#[test]
fn ringing_notes_are_closed_at_the_end() {
    let file = metrical(
        480,
        vec![vec![
            event(0, EventKind::NoteOn { key: 72, vel: 127 }),
            event(10, EventKind::NoteOn { key: 60, vel: 127 }),
            event(30, EventKind::Other),
        ]],
    );
    let data = import_file(&file).unwrap();
    assert_eq!(data.tracks[0].notes, vec![(0, 72, LEVEL_ONE, 40), (10, 60, LEVEL_ONE, 30)]);
}

#[test]
fn notes_come_in_the_order_of_their_starts() {
    let file = metrical(
        480,
        vec![vec![
            event(0, EventKind::NoteOn { key: 60, vel: 127 }),
            event(10, EventKind::NoteOn { key: 62, vel: 127 }),
            event(10, EventKind::NoteOff { key: 62 }),
            event(10, EventKind::NoteOff { key: 60 }),
        ]],
    );
    let data = import_file(&file).unwrap();
    assert_eq!(data.tracks[0].notes, vec![(0, 60, LEVEL_ONE, 30), (10, 62, LEVEL_ONE, 10)]);
}

#[test]
fn a_blank_track_name_keeps_the_number() {
    let file = metrical(480, vec![vec![], vec![event(0, EventKind::TrackName(b"  ".to_vec()))]]);
    let data = import_file(&file).unwrap();
    assert_eq!(data.tracks[0].name, "Track 1");
    assert_eq!(data.tracks[1].name, "Track 2");
}

#[test]
fn the_tempo_of_an_import_is_kept_in_range() {
    let fast = metrical(480, vec![vec![event(0, EventKind::Tempo(100_000))]]);
    assert_eq!(bpm(import_file(&fast).unwrap().tempo), 300.0);
    let slow = metrical(480, vec![vec![event(0, EventKind::Tempo(6_000_000))]]);
    assert_eq!(bpm(import_file(&slow).unwrap().tempo), 40.0);
    let none = metrical(480, vec![vec![event(0, EventKind::Tempo(0))]]);
    assert_eq!(bpm(import_file(&none).unwrap().tempo), 120.0);
}

#[test]
fn the_time_signature_of_an_import_is_kept_in_range() {
    let unit = |nn: u8, dd: u8| {
        let file = metrical(480, vec![vec![event(0, EventKind::TimeSignature(nn, dd))]]);
        let data = import_file(&file).unwrap();
        (data.beats_per_bar, data.beat_unit)
    };
    assert_eq!(unit(3, 0), (3, 2));
    assert_eq!(unit(0, 3), (1, 8));
    assert_eq!(unit(5, 4), (5, 16));
    assert_eq!(unit(5, 7), (5, 16));
}

fn import(tracks: Vec<ImportedTrack>, ppq: u32) -> ImportData {
    ImportData { tracks, tempo: Tempo::bpm(120), beats_per_bar: 4, beat_unit: 4, ppq }
}

fn track(name: &str, notes: Vec<(u64, u8, i32, u64)>, selected: bool) -> ImportedTrack {
    ImportedTrack { name: name.to_string(), notes, selected }
}

#[test]
fn only_selected_tracks_are_built() {
    let data = import(
        vec![
            track("a", vec![(0, 48, LEVEL_ONE, 480)], true),
            track("b", vec![(0, 50, LEVEL_ONE, 480)], false),
            track("c", vec![(0, 52, LEVEL_ONE, 480)], true),
        ],
        480,
    );
    let (clips, names) = build_clips(&data, true);
    assert_eq!(names, vec!["a", "c"]);
    assert_eq!(clips[0].notes[0].pitch_index, 0);
    assert_eq!(clips[1].notes[0].pitch_index, 4);
    let (merged, _) = build_clips(&data, false);
    assert_eq!(merged[0].notes.len(), 2);
    assert_eq!(merged[0].notes[0].id, 0);
    assert_eq!(merged[0].notes[1].id, 1);
}

#[test]
fn clips_are_whole_quarters_and_hold_their_notes() {
    let data = import(vec![track("a", vec![(480, 48, LEVEL_ONE, 481)], true)], 480);
    let (clips, _) = build_clips(&data, false);
    // ends just after step 8
    assert_eq!(clips[0].total_steps, 12);
    let n = &clips[0].notes[0];
    assert_eq!(n.start_step, Steps::of(4));
    let end = n.start_step.units() + n.length_steps.units();
    assert!(end <= Steps::of(clips[0].total_steps as u64).units());
    // a triplet eighth is 4/3 of a step
    let data = import(vec![track("a", vec![(160, 48, LEVEL_ONE, 160)], true)], 480);
    let (clips, _) = build_clips(&data, false);
    assert_eq!(clips[0].notes[0].start_step.units() * 3, Steps::of(4).units());
}

#[test]
fn short_notes_last_half_a_step_and_levels_are_clamped() {
    let data = import(
        vec![track("a", vec![(0, 48, 2 * LEVEL_ONE, 0), (0, 48, -5, 60), (0, 48, 7, 90)], true)],
        480,
    );
    let (clips, _) = build_clips(&data, false);
    assert_eq!(clips[0].notes[0].length_steps, Steps { whole: 0, part: UNITS_PER_STEP / 2 });
    assert_eq!(clips[0].notes[0].velocity, LEVEL_ONE);
    assert_eq!(clips[0].notes[1].length_steps, Steps { whole: 0, part: UNITS_PER_STEP / 2 });
    assert_eq!(clips[0].notes[1].velocity, 0);
    assert_eq!(clips[0].notes[2].length_steps, Steps { whole: 0, part: UNITS_PER_STEP / 4 * 3 });
    assert_eq!(clips[0].notes[2].velocity, 7);
}

/// A text event that holds what looks like a header with -128 frames per second.
fn text_with_header() -> Vec<u8> {
    let mut track = vec![0x00, 0xFF, 0x01, 14];
    track.extend_from_slice(b"MThd");
    track.extend_from_slice(&[0, 0, 0, 6, 0, 1, 0, 1, 0x80, 0x00]);
    track.extend_from_slice(&[0x00, 0x90, 0x3C, 0x7F, 0x60, 0x80, 0x3C, 0x00]);
    track
}

fn riff_chunk(id: &[u8; 4], data: &[u8]) -> Vec<u8> {
    let mut out = id.to_vec();
    out.extend_from_slice(&(data.len() as u32).to_le_bytes());
    out.extend_from_slice(data);
    if data.len() % 2 == 1 {
        out.push(0);
    }
    out
}

fn rmid(chunks: &[Vec<u8>]) -> Vec<u8> {
    let mut body = b"RMID".to_vec();
    for c in chunks {
        body.extend_from_slice(c);
    }
    riff_chunk(b"RIFF", &body)
}

#[test]
fn headers_in_other_data_are_not_headers() {
    let mut file = header(0, 1, [0x01, 0xE0]);
    chunk(&mut file, &text_with_header());
    assert_eq!(parse(&file).unwrap().tracks[0].notes, vec![(0, 60, LEVEL_ONE, 96)]);
    // the same file in a container, behind a padded chunk that holds such bytes too
    let mut odd = text_with_header();
    odd.push(0);
    let riff = rmid(&[riff_chunk(b"DISP", &odd), riff_chunk(b"data", &file)]);
    let data = parse(&riff).unwrap();
    assert_eq!(data.ppq, 480);
    assert_eq!(data.tracks[0].notes, vec![(0, 60, LEVEL_ONE, 96)]);
}

#[test]
fn a_container_with_an_impossible_frame_rate_is_refused() {
    let riff = rmid(&[riff_chunk(b"data", &header(0, 1, [0x80, 0x01]))]);
    assert!(matches!(parse(&riff), Err(ImportError::InvalidFrameRate)));
    // another chunk of the container is not read
    let mut file = header(0, 1, [0x01, 0xE0]);
    chunk(&mut file, &[0x00, 0xFF, 0x2F, 0x00]);
    let riff = rmid(&[riff_chunk(b"data", &file), riff_chunk(b"data", &header(0, 1, [0x80, 1]))]);
    assert_eq!(parse(&riff).unwrap().tracks.len(), 1);
}

#[test]
fn a_second_header_is_passed_over_or_ends_the_file() {
    let track = [0x00, 0x90, 0x3C, 0x7F, 0x60, 0x80, 0x3C, 0x00];
    let tracks = |second: [u8; 4]| {
        let mut file = header(1, 2, [0x01, 0xE0]);
        chunk(&mut file, &track);
        file.extend_from_slice(b"MThd");
        file.extend_from_slice(&[0, 0, 0, 6, second[0], second[1], 0, 1, second[2], second[3]]);
        chunk(&mut file, &track);
        let plain = parse(&file).unwrap().tracks.len();
        let riff = rmid(&[riff_chunk(b"data", &file)]);
        assert_eq!(parse(&riff).unwrap().tracks.len(), plain);
        plain
    };
    // a good one is passed over
    assert_eq!(tracks([0, 1, 0x01, 0xE0]), 2);
    assert_eq!(tracks([0, 1, 0xE7, 40]), 2);
    // one with an unknown format or frame rate ends the file
    assert_eq!(tracks([0, 9, 0x80, 0x00]), 1);
    assert_eq!(tracks([0, 1, 0x81, 0x00]), 1);
    assert_eq!(tracks([0, 1, 0x80, 0x00]), 1);
}

#[test]
fn a_note_per_strike() {
    // key 60 is struck again before its release, key 62 is never released
    let file = metrical(
        480,
        vec![vec![
            event(0, EventKind::NoteOn { key: 60, vel: 1 }),
            event(5, EventKind::NoteOff { key: 62 }),
            event(5, EventKind::NoteOn { key: 60, vel: 2 }),
            event(10, EventKind::NoteOn { key: 62, vel: 3 }),
            event(10, EventKind::NoteOff { key: 60 }),
            event(10, EventKind::NoteOff { key: 60 }),
        ]],
    );
    let data = import_file(&file).unwrap();
    assert_eq!(data.tracks[0].notes, vec![(10, 60, 20_000, 20), (20, 62, 30_000, 20)]);
}

#[test]
fn a_merged_clip_joins_the_separate_ones() {
    let data = import(
        vec![
            track("a", vec![(0, 48, LEVEL_ONE, 480), (960, 50, 7, 2000)], true),
            track("b", vec![(0, 99, 1, 1)], false),
            track("c", vec![(100, 52, 5, 480)], true),
        ],
        480,
    );
    let (clips, _) = build_clips(&data, true);
    let (merged, _) = build_clips(&data, false);
    let separate: Vec<_> = clips.iter().flat_map(|c| c.notes.iter()).collect();
    assert_eq!(merged[0].notes.len(), separate.len());
    for (i, (m, s)) in merged[0].notes.iter().zip(separate).enumerate() {
        assert_eq!(m.id, i as u64);
        assert_eq!(
            (m.pitch_index, m.start_step, m.length_steps, m.velocity),
            (s.pitch_index, s.start_step, s.length_steps, s.velocity)
        );
    }
    assert_eq!(merged[0].total_steps, clips.iter().map(|c| c.total_steps).max().unwrap());
}

#[test]
fn ticks_become_exact_positions() {
    for ppq in [17, 24, 25, 96, 100, 480, 960, 1000, 15_360] {
        let data = import(vec![track("a", vec![(7, 48, 1, 7)], true)], ppq);
        let (clips, _) = build_clips(&data, false);
        // seven ticks are 28 / ppq steps
        assert_eq!(
            clips[0].notes[0].start_step.units() * ppq as u128,
            28 * UNITS_PER_STEP as u128
        );
    }
    // where a resolution does not fit, the position is the one in double precision
    for (ticks, ppq) in [(123_456, 41), (777, 32_749), (99_999_999, 997)] {
        let data = import(vec![track("a", vec![(ticks, 48, 1, 1)], true)], ppq);
        let (clips, _) = build_clips(&data, false);
        let expected = ticks as f64 * 4.0 / ppq as f64;
        assert_eq!(steps(clips[0].notes[0].start_step), expected);
    }
}
