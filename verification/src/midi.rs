//! MIDI import.
//!
//! Converts ticks to the step grid (4 steps per quarter) and MIDI note numbers
//! to degrees (MIDI 48 == C4 == degree 0). Tracks are kept separate so the user
//! can pick which tracks to import and whether each track becomes its own clip
//! or everything merges into one clip.
use std::collections::HashMap;
#[allow(unused_imports)]
use vstd::multiset::Multiset;
use vstd::prelude::*;

use crate::grid::{Steps, Tempo};
use crate::level::{clamp_level, LEVEL_PER_VELOCITY};
use crate::pattern::{Note, Pattern};
use crate::smf::{read_midi, text_from_bytes, EventKind, MidiFile, ReadError, TimeDivision, TimedEvent};
use crate::sort::{stable_sort, Keyed};
use crate::text::{push_decimal, trim};
#[allow(unused_imports)]
use crate::grid::{capped, clamped_tempo, held_units, lemma_nearest_whole, max_units, nearest};
#[allow(unused_imports)]
use crate::level::{clamped_level, LEVEL_ONE};
#[allow(unused_imports)]
use crate::pattern::{end_of, ids_unique, pattern_views, NoteView, PatternView};
#[allow(unused_imports)]
use crate::smf::{
    event_views, impossible_frame_rate, in_seven_bits, lossy_text, readable_part, smf_outcome,
    track_in_seven_bits, track_views, EventView, MidiView,
    TimedView,
};
#[allow(unused_imports)]
use crate::sort::{stable_sort_is_permutation, stable_sort_of};
#[allow(unused_imports)]
use crate::text::{decimal, text_views, trimmed_text};

verus! {

broadcast use vstd::std_specs::hash::group_hash_axioms;

/// The MIDI note number of degree 0.
pub const MIDI_C4: i32 = 48;

/// Slowest and fastest tempo that an import gives, in beats per minute.
pub const IMPORT_TEMPO_MIN: u32 = 40;

pub const IMPORT_TEMPO_MAX: u32 = 300;

/// Half a step, in grid units: the shortest note that an import gives.
pub const HALF_STEP: u64 = 748_010_403_988_848_000;

/// Microseconds in a minute.
pub const MICROS_PER_MINUTE: u32 = 60_000_000;

/// The shortest imported clip, in steps.
pub const MIN_CLIP_STEPS: usize = 8;

/// Grid units in a quarter note.
pub const UNITS_PER_QUARTER: u64 = 5_984_083_231_910_784_000;

/// A finished note: start tick, MIDI note, velocity (a level), length in ticks.
pub type TickNote = (u64, u8, i32, u64);

impl Keyed for (u64, u8, i32, u64) {
    open spec fn key(self) -> int {
        self.0 as int
    }

    fn sort_key(&self) -> (k: u64) {
        self.0
    }

    fn same(&self) -> (r: (u64, u8, i32, u64)) {
        (self.0, self.1, self.2, self.3)
    }
}

/// One parsed MIDI track (name + finished notes).
#[derive(Debug)]
pub struct ImportedTrack {
    pub name: String,
    /// (start tick, MIDI note, velocity as a level, length in ticks)
    pub notes: Vec<(u64, u8, i32, u64)>,
    /// Whether this track should be imported.
    pub selected: bool,
}

/// Parsed file, kept in memory so the user can pick tracks.
#[derive(Debug)]
pub struct ImportData {
    pub tracks: Vec<ImportedTrack>,
    pub tempo: Tempo,
    pub beats_per_bar: u32,
    pub beat_unit: u32,
    /// Ticks per quarter note.
    pub ppq: u32,
}

/// Why a file cannot be imported.
#[derive(Debug)]
pub enum ImportError {
    /// The bytes are no MIDI file; the reason is given.
    InvalidFile(String),
    /// The header gives a frame rate that does not exist.
    InvalidFrameRate,
    /// The file counts time by SMPTE frames.
    SmpteTimeDivision,
    /// The file has zero ticks per quarter note.
    ZeroTimeDivision,
    /// The file has no track.
    NoTracks,
}

/// What is known of the notes of a track after some of its events.
pub struct NoteTake {
    /// The tick of the last event.
    pub tick: u64,
    /// The keys that are down: when, and how hard.
    pub active: Map<u8, (u64, i32)>,
    /// The notes that are over.
    pub done: Seq<TickNote>,
}

/// The tick `delta` ticks after `tick`; the count stops at its highest value.
pub open spec fn tick_after(tick: u64, delta: u32) -> u64 {
    if tick + delta > u64::MAX {
        u64::MAX
    } else {
        (tick + delta) as u64
    }
}

/// The length of a note that started at `start` and ends at `tick`.
pub open spec fn ticks_since(tick: u64, start: u64) -> u64 {
    if tick < start {
        0
    } else {
        (tick - start) as u64
    }
}

impl NoteTake {
    /// Before the first event.
    pub open spec fn start() -> NoteTake {
        NoteTake { tick: 0, active: Map::empty(), done: Seq::empty() }
    }

    /// A key comes up: its note, if it was down, is over.
    pub open spec fn key_up(self, key: u8) -> NoteTake {
        if self.active.contains_key(key) {
            let (start, velocity) = self.active[key];
            NoteTake {
                active: self.active.remove(key),
                done: self.done.push((start, key, velocity, ticks_since(self.tick, start))),
                ..self
            }
        } else {
            self
        }
    }

    /// One more event.
    pub open spec fn event(self, ev: TimedView) -> NoteTake {
        let now = NoteTake { tick: tick_after(self.tick, ev.delta), ..self };
        match ev.kind {
            EventView::NoteOn { key, vel } => if vel == 0 {
                now.key_up(key)
            } else {
                NoteTake {
                    active: now.active.insert(key, (now.tick, (vel * LEVEL_PER_VELOCITY) as i32)),
                    ..now
                }
            },
            EventView::NoteOff { key } => now.key_up(key),
            _ => now,
        }
    }

    /// All keys below `upto` come up, lowest first.
    pub open spec fn close(self, upto: nat) -> NoteTake
        decreases upto,
    {
        if upto == 0 {
            self
        } else {
            self.close((upto - 1) as nat).key_up((upto - 1) as u8)
        }
    }
}

/// What is known of the notes of a track after the given events.
pub open spec fn note_take(events: Seq<TimedView>) -> NoteTake
    decreases events.len(),
{
    if events.len() == 0 {
        NoteTake::start()
    } else {
        note_take(events.drop_last()).event(events.last())
    }
}

/// The notes of a track in the order in which they end; those still ringing at
/// the end of the track end there.
pub open spec fn track_notes(events: Seq<TimedView>) -> Seq<TickNote> {
    note_take(events).close(256).done
}

/// The name of a track that has none: its number, counted from one.
pub open spec fn default_track_name(index: int) -> Seq<char> {
    "Track "@ + decimal((index + 1) as nat)
}

/// The name of a track: the last one it gives, without white space around it;
/// a blank one counts as none.
pub open spec fn track_name(events: Seq<TimedView>, index: int) -> Seq<char>
    decreases events.len(),
{
    if events.len() == 0 {
        default_track_name(index)
    } else {
        match events.last().kind {
            EventView::TrackName(bytes) => {
                let t = trimmed_text(lossy_text(bytes));
                if t.len() == 0 {
                    default_track_name(index)
                } else {
                    t
                }
            },
            _ => track_name(events.drop_last(), index),
        }
    }
}

/// The first tempo that a track sets.
pub open spec fn first_tempo(events: Seq<TimedView>) -> Option<Tempo>
    decreases events.len(),
{
    if events.len() == 0 {
        None
    } else {
        match first_tempo(events.drop_last()) {
            Some(t) => Some(t),
            None => match events.last().kind {
                EventView::Tempo(micros) => if micros > 0 {
                    Some(Tempo { num: MICROS_PER_MINUTE, den: micros })
                } else {
                    None
                },
                _ => None,
            },
        }
    }
}

/// The first time signature that a track sets.
pub open spec fn first_signature(events: Seq<TimedView>) -> Option<(u8, u8)>
    decreases events.len(),
{
    if events.len() == 0 {
        None
    } else {
        match first_signature(events.drop_last()) {
            Some(s) => Some(s),
            None => match events.last().kind {
                EventView::TimeSignature(n, d) => Some((n, d)),
                _ => None,
            },
        }
    }
}

/// The first tempo of a file, in track order.
pub open spec fn file_tempo(tracks: Seq<Seq<TimedView>>) -> Option<Tempo>
    decreases tracks.len(),
{
    if tracks.len() == 0 {
        None
    } else {
        match file_tempo(tracks.drop_last()) {
            Some(t) => Some(t),
            None => first_tempo(tracks.last()),
        }
    }
}

/// The first time signature of a file, in track order.
pub open spec fn file_signature(tracks: Seq<Seq<TimedView>>) -> Option<(u8, u8)>
    decreases tracks.len(),
{
    if tracks.len() == 0 {
        None
    } else {
        match file_signature(tracks.drop_last()) {
            Some(s) => Some(s),
            None => first_signature(tracks.last()),
        }
    }
}

/// The beat unit that a power of two stands for, kept between 2 and 16.
pub open spec fn unit_of_exponent(exponent: u8) -> u32 {
    if exponent <= 1 {
        2
    } else if exponent == 2 {
        4
    } else if exponent == 3 {
        8
    } else {
        16
    }
}

/// `t` is the import of one track.
pub open spec fn is_track_import(t: ImportedTrack, events: Seq<TimedView>, index: int) -> bool {
    &&& t.name@ == track_name(events, index)
    &&& stable_sort_of(t.notes@, track_notes(events))
    &&& t.selected
}

/// `d` is the import of a file with `ppq` ticks per quarter note.
pub open spec fn is_file_import(d: ImportData, tracks: Seq<Seq<TimedView>>, ppq: u16) -> bool {
    let tempo = match file_tempo(tracks) {
        Some(t) => t,
        None => Tempo { num: 120, den: 1 },
    };
    let (beats, exponent) = match file_signature(tracks) {
        Some(s) => s,
        None => (4u8, 2u8),
    };
    &&& d.tracks.len() == tracks.len()
    &&& forall|i: int| 0 <= i < tracks.len() ==> is_track_import(#[trigger] d.tracks[i], tracks[i], i)
    &&& d.tempo == clamped_tempo(tempo, IMPORT_TEMPO_MIN, IMPORT_TEMPO_MAX)
    &&& d.beats_per_bar == if beats == 0 {
        1
    } else {
        beats as u32
    }
    &&& d.beat_unit == unit_of_exponent(exponent)
    &&& d.ppq == ppq
}

/// `r` is what importing a decoded file gives.
pub open spec fn is_import(file: MidiView, r: Result<ImportData, ImportError>) -> bool {
    match file.timing {
        TimeDivision::Timecode => r == Err::<ImportData, ImportError>(
            ImportError::SmpteTimeDivision,
        ),
        TimeDivision::Metrical(ppq) => if ppq == 0 {
            r == Err::<ImportData, ImportError>(ImportError::ZeroTimeDivision)
        } else if file.tracks.len() == 0 {
            r == Err::<ImportData, ImportError>(ImportError::NoTracks)
        } else {
            r is Ok && is_file_import(r->Ok_0, file.tracks, ppq)
        },
    }
}

/// The notes of a track while its events are read.
struct Taker {
    tick: u64,
    active: HashMap<u8, (u64, i32)>,
    done: Vec<(u64, u8, i32, u64)>,
}

impl View for Taker {
    type V = NoteTake;

    closed spec fn view(&self) -> NoteTake {
        NoteTake { tick: self.tick, active: self.active@, done: self.done@ }
    }
}

impl Taker {
    fn new() -> (r: Taker)
        ensures
            r@ == NoteTake::start(),
    {
        Taker { tick: 0, active: HashMap::new(), done: Vec::new() }
    }

    fn key_up(&mut self, key: u8)
        ensures
            final(self)@ == old(self)@.key_up(key),
    {
        if let Some(held) = self.active.remove(&key) {
            let len: u64 = if self.tick < held.0 {
                0
            } else {
                self.tick - held.0
            };
            self.done.push((held.0, key, held.1, len));
        } else {
            assert(self.active@ =~= old(self).active@);
        }
    }

    fn event(&mut self, ev: &TimedEvent)
        ensures
            final(self)@ == old(self)@.event(ev@),
    {
        self.tick = if ev.delta as u64 > u64::MAX - self.tick {
            u64::MAX
        } else {
            self.tick + ev.delta as u64
        };
        match &ev.kind {
            EventKind::NoteOn { key, vel } => {
                if *vel == 0 {
                    self.key_up(*key);
                } else {
                    let tick = self.tick;
                    self.active.insert(*key, (tick, *vel as i32 * LEVEL_PER_VELOCITY));
                }
            },
            EventKind::NoteOff { key } => {
                self.key_up(*key);
            },
            _ => {},
        }
    }

    fn close(&mut self)
        ensures
            final(self)@ == old(self)@.close(256),
    {
        let ghost before = self@;
        for k in 0u16..256u16
            invariant
                self@ == before.close(k as nat),
        {
            self.key_up(k as u8);
        }
    }
}

/// The notes, the name and the first tempo and time signature of one track.
fn import_track(events: &Vec<TimedEvent>, index: usize) -> (r: (
    ImportedTrack,
    Option<Tempo>,
    Option<(u8, u8)>,
))
    requires
        index < usize::MAX,
    ensures
        is_track_import(r.0, event_views(events@), index as int),
        r.1 == first_tempo(event_views(events@)),
        r.2 == first_signature(event_views(events@)),
{
    let ghost views = event_views(events@);
    let mut taker = Taker::new();
    let mut name = default_name(index);
    let mut tempo: Option<Tempo> = None;
    let mut signature: Option<(u8, u8)> = None;
    for i in 0..events.len()
        invariant
            index < usize::MAX,
            views == event_views(events@),
            taker@ == note_take(views.take(i as int)),
            name@ == track_name(views.take(i as int), index as int),
            tempo == first_tempo(views.take(i as int)),
            signature == first_signature(views.take(i as int)),
    {
        let ev = &events[i];
        proof {
            assert(views.take(i + 1).drop_last() =~= views.take(i as int));
            assert(views.take(i + 1).last() == ev@);
        }
        taker.event(ev);
        match &ev.kind {
            EventKind::TrackName(bytes) => {
                let text = text_from_bytes(bytes);
                name = trim(text.as_str());
                if name.as_str().is_empty() {
                    name = default_name(index);
                }
            },
            EventKind::Tempo(micros) => {
                if tempo.is_none() && *micros > 0 {
                    tempo = Some(Tempo { num: MICROS_PER_MINUTE, den: *micros });
                }
            },
            EventKind::TimeSignature(n, d) => {
                if signature.is_none() {
                    signature = Some((*n, *d));
                }
            },
            _ => {},
        }
    }
    assert(views.take(views.len() as int) =~= views);
    taker.close();
    let notes = stable_sort(&taker.done);
    (ImportedTrack { name, notes, selected: true }, tempo, signature)
}

/// The name of a track that gives none.
fn default_name(index: usize) -> (r: String)
    requires
        index < usize::MAX,
    ensures
        r@ == default_track_name(index as int),
{
    let mut s = String::from_str("Track ");
    push_decimal(&mut s, index as u128 + 1);
    s
}

proof fn lemma_first_tempo_wf(events: Seq<TimedView>)
    ensures
        first_tempo(events) matches Some(t) ==> t.wf(),
    decreases events.len(),
{
    if events.len() > 0 {
        lemma_first_tempo_wf(events.drop_last());
    }
}

/// Turns a decoded file into per-track note lists.
pub fn import_file(file: &MidiFile) -> (r: Result<ImportData, ImportError>)
    ensures
        is_import(file@, r),
        r matches Ok(d) ==> d.ppq > 0 && d.tempo.wf(),
{
    let ppq: u16 = match file.timing {
        TimeDivision::Metrical(ppq) => ppq,
        TimeDivision::Timecode => {
            return Err(ImportError::SmpteTimeDivision);
        },
    };
    if ppq == 0 {
        return Err(ImportError::ZeroTimeDivision);
    }
    let ghost views = track_views(file.tracks@);
    let mut tempo: Option<Tempo> = None;
    let mut signature: Option<(u8, u8)> = None;
    let mut tracks: Vec<ImportedTrack> = Vec::new();
    for i in 0..file.tracks.len()
        invariant
            views == track_views(file.tracks@),
            tempo == file_tempo(views.take(i as int)),
            tempo matches Some(t) ==> t.wf(),
            signature == file_signature(views.take(i as int)),
            tracks.len() == i,
            forall|j: int|
                0 <= j < i ==> is_track_import(#[trigger] tracks[j], views[j], j),
    {
        proof {
            assert(views.take(i + 1).drop_last() =~= views.take(i as int));
            assert(views.take(i + 1).last() == event_views(file.tracks[i as int]@));
            lemma_first_tempo_wf(views[i as int]);
        }
        let (track, own_tempo, own_signature) = import_track(&file.tracks[i], i);
        if tempo.is_none() {
            tempo = own_tempo;
        }
        if signature.is_none() {
            signature = own_signature;
        }
        tracks.push(track);
    }
    assert(views.take(views.len() as int) =~= views);
    if tracks.len() == 0 {
        return Err(ImportError::NoTracks);
    }
    let found = match tempo {
        Some(t) => t,
        None => Tempo::bpm(120),
    };
    let (beats, exponent): (u8, u8) = match signature {
        Some(s) => s,
        None => (4, 2),
    };
    Ok(
        ImportData {
            tracks,
            tempo: found.clamp(IMPORT_TEMPO_MIN, IMPORT_TEMPO_MAX),
            beats_per_bar: if beats == 0 {
                1
            } else {
                beats as u32
            },
            beat_unit: beat_unit(exponent),
            ppq: ppq as u32,
        },
    )
}

/// The beat unit that a power of two stands for: 2, 4, 8 or 16.
fn beat_unit(exponent: u8) -> (r: u32)
    ensures
        r == unit_of_exponent(exponent),
{
    if exponent <= 1 {
        2
    } else if exponent == 2 {
        4
    } else if exponent == 3 {
        8
    } else {
        16
    }
}

/// Every note has a MIDI key and a level above silence, up to full level.
pub open spec fn notes_in_range(notes: Seq<TickNote>) -> bool {
    forall|j: int|
        0 <= j < notes.len() ==> (#[trigger] notes[j]).1 < 128 && 0 < notes[j].2 <= LEVEL_ONE
}

proof fn lemma_strikes_in_range(events: Seq<TimedView>, n: int)
    requires
        0 <= n <= events.len(),
        track_in_seven_bits(events),
    ensures
        notes_in_range(strike_notes(events, n)),
    decreases n,
{
    if n > 0 {
        lemma_strikes_in_range(events, n - 1);
        assert(in_seven_bits(events[n - 1].kind));
    }
}

proof fn lemma_import_in_range(t: ImportedTrack, events: Seq<TimedView>, index: int)
    requires
        is_track_import(t, events, index),
        track_in_seven_bits(events),
    ensures
        notes_in_range(t.notes@),
{
    broadcast use vstd::seq_lib::group_to_multiset_ensures;

    let struck = strike_notes(events, events.len() as int);
    a_track_has_a_note_per_strike(events);
    lemma_strikes_in_range(events, events.len() as int);
    stable_sort_is_permutation(t.notes@, track_notes(events));
    assert forall|j: int| 0 <= j < t.notes@.len() implies (#[trigger] t.notes@[j]).1 < 128 && 0
        < t.notes@[j].2 <= LEVEL_ONE by {
        let n = t.notes@[j];
        assert(t.notes@.contains(n));
        assert(t.notes@.to_multiset().contains(n));
        assert(struck.contains(n));
        let k = struck.index_of(n);
        assert(struck[k] == n);
    }
}

/// Parse an SMF file into per-track note lists.
pub fn parse(bytes: &[u8]) -> (r: Result<ImportData, ImportError>)
    ensures
        impossible_frame_rate(bytes@) ==> r == Err::<ImportData, ImportError>(
            ImportError::InvalidFrameRate,
        ),
        !impossible_frame_rate(bytes@) ==> match smf_outcome(readable_part(bytes@)) {
            Ok(file) => is_import(file, r),
            Err(text) => r is Err && r->Err_0 is InvalidFile && r->Err_0->InvalidFile_0@ == text,
        },
        r matches Ok(d) ==> d.ppq > 0 && d.tempo.wf() && d.tracks.len() > 0,
        r matches Ok(d) ==> forall|i: int|
            0 <= i < d.tracks.len() ==> notes_in_range((#[trigger] d.tracks[i]).notes@),
{
    match read_midi(bytes) {
        Ok(file) => {
            let r = import_file(&file);
            proof {
                if let Ok(d) = &r {
                    assert forall|i: int| 0 <= i < d.tracks.len() implies notes_in_range(
                        (#[trigger] d.tracks[i]).notes@,
                    ) by {
                        assert(track_in_seven_bits(file@.tracks[i]));
                        lemma_import_in_range(d.tracks[i], file@.tracks[i], i);
                    }
                }
            }
            r
        },
        Err(ReadError::FrameRate) => Err(ImportError::InvalidFrameRate),
        Err(ReadError::Refused(text)) => Err(ImportError::InvalidFile(text)),
    }
}

impl ImportError {
    /// The error in words.
    pub open spec fn words(self) -> Seq<char> {
        match self {
            ImportError::InvalidFile(text) => "invalid MIDI file: "@ + text@,
            ImportError::InvalidFrameRate => "invalid MIDI file: invalid midi: invalid midi header"@,
            ImportError::SmpteTimeDivision => "SMPTE time division is not supported"@,
            ImportError::ZeroTimeDivision => "time division is zero"@,
            ImportError::NoTracks => "no tracks found in the file"@,
        }
    }

    /// The error in words.
    pub fn message(&self) -> (r: String)
        ensures
            r@ == self.words(),
    {
        match self {
            ImportError::InvalidFile(text) => {
                let mut s = String::from_str("invalid MIDI file: ");
                s.append(text.as_str());
                s
            },
            ImportError::InvalidFrameRate => String::from_str(
                "invalid MIDI file: invalid midi: invalid midi header",
            ),
            ImportError::SmpteTimeDivision => String::from_str(
                "SMPTE time division is not supported",
            ),
            ImportError::ZeroTimeDivision => String::from_str("time division is zero"),
            ImportError::NoTracks => String::from_str("no tracks found in the file"),
        }
    }
}

// ---------------------------------------------------------------------------
// From note lists to clips
// ---------------------------------------------------------------------------

/// A number of ticks as grid units, rounded to the nearest unit.
pub open spec fn units_of_ticks(ticks: u64, ppq: u32) -> nat {
    held_units(nearest(ticks * UNITS_PER_QUARTER, ppq as int)) as nat
}

/// The length of an imported note: never shorter than half a step.
pub open spec fn at_least_half_step(units: nat) -> nat {
    if units < HALF_STEP {
        HALF_STEP as nat
    } else {
        units
    }
}

/// What one note of a track becomes in a clip.
pub open spec fn clip_note(n: TickNote, ppq: u32, id: u64) -> NoteView {
    NoteView {
        id,
        pitch_index: (n.1 - MIDI_C4) as i32,
        start_step: units_of_ticks(n.0, ppq),
        length_steps: at_least_half_step(units_of_ticks(n.3, ppq)),
        velocity: clamped_level(n.2),
        label: Seq::empty(),
    }
}

/// A pattern with one more note of a track.
pub open spec fn plus_note(p: PatternView, n: TickNote, ppq: u32) -> PatternView {
    p.plus(clip_note(n, ppq, p.next_id))
}

/// A pattern with the notes of a track added.
pub open spec fn plus_notes(p: PatternView, notes: Seq<TickNote>, ppq: u32) -> PatternView
    decreases notes.len(),
{
    if notes.len() == 0 {
        p
    } else {
        plus_note(plus_notes(p, notes.drop_last(), ppq), notes.last(), ppq)
    }
}

/// A pattern with the notes of the selected tracks added.
pub open spec fn plus_tracks(p: PatternView, tracks: Seq<ImportedTrack>, ppq: u32) -> PatternView
    decreases tracks.len(),
{
    if tracks.len() == 0 {
        p
    } else {
        let rest = plus_tracks(p, tracks.drop_last(), ppq);
        if tracks.last().selected {
            plus_notes(rest, tracks.last().notes@, ppq)
        } else {
            rest
        }
    }
}

/// Where the last note ends, in grid units.
pub open spec fn last_end(notes: Seq<NoteView>) -> int
    decreases notes.len(),
{
    if notes.len() == 0 {
        0
    } else {
        let rest = last_end(notes.drop_last());
        if end_of(notes.last()) > rest {
            end_of(notes.last())
        } else {
            rest
        }
    }
}

/// The length of an imported clip: whole quarters, enough for all its notes,
/// and at least eight steps.
pub open spec fn whole_quarters(notes: Seq<NoteView>) -> usize {
    let steps = capped((last_end(notes) + UNITS_PER_QUARTER - 1) / (UNITS_PER_QUARTER as int) * 4);
    if steps < MIN_CLIP_STEPS {
        MIN_CLIP_STEPS
    } else {
        steps
    }
}

/// An empty clip with the time signature of the file.
pub open spec fn blank_clip(data: ImportData) -> PatternView {
    PatternView {
        beats_per_bar: data.beats_per_bar,
        beat_unit: data.beat_unit,
        ..PatternView::empty(MIN_CLIP_STEPS)
    }
}

/// A clip with its length fitted to its notes.
pub open spec fn fitted(p: PatternView) -> PatternView {
    PatternView { total_steps: whole_quarters(p.notes), ..p }
}

/// The clip of one track.
pub open spec fn track_clip(data: ImportData, track: ImportedTrack) -> PatternView {
    fitted(plus_notes(blank_clip(data), track.notes@, data.ppq))
}

/// The clip of all selected tracks together.
pub open spec fn merged_clip(data: ImportData) -> PatternView {
    fitted(plus_tracks(blank_clip(data), data.tracks@, data.ppq))
}

/// The selected tracks, in order.
pub open spec fn selected_tracks(tracks: Seq<ImportedTrack>) -> Seq<ImportedTrack> {
    tracks.filter(|t: ImportedTrack| t.selected)
}

/// The clips of an import: one per selected track, or one with all of them.
pub open spec fn clips_of(data: ImportData, separate: bool) -> Seq<PatternView> {
    if separate {
        selected_tracks(data.tracks@).map_values(|t: ImportedTrack| track_clip(data, t))
    } else {
        seq![merged_clip(data)]
    }
}

/// The names of the clips of an import.
pub open spec fn clip_names_of(data: ImportData, separate: bool) -> Seq<Seq<char>> {
    if separate {
        selected_tracks(data.tracks@).map_values(|t: ImportedTrack| t.name@)
    } else {
        seq!["Imported"@]
    }
}

/// The number of notes of the selected tracks.
pub open spec fn selected_notes(tracks: Seq<ImportedTrack>) -> nat
    decreases tracks.len(),
{
    if tracks.len() == 0 {
        0
    } else if tracks.last().selected {
        selected_notes(tracks.drop_last()) + tracks.last().notes.len() as nat
    } else {
        selected_notes(tracks.drop_last())
    }
}

/// Ticks to a number of steps.
fn to_steps(ticks: u64, ppq: u32) -> (r: Steps)
    requires
        ppq > 0,
    ensures
        r@ == units_of_ticks(ticks, ppq),
{
    assert(ticks * 5_984_083_231_910_784_000 <= 0x530c_0000_0000_0000_0000_0000_0000_0000);
    let p: u128 = ticks as u128 * 5_984_083_231_910_784_000;
    let d: u128 = ppq as u128;
    proof {
        assert((2 * p + d) / (2 * d) >= 0) by (nonlinear_arith)
            requires
                p >= 0,
                d > 0,
        ;
    }
    let q: u128 = (2 * p + d) / (2 * d);
    Steps::from_units(q)
}

/// Adds the notes of a track to a clip.
fn add_notes(p: &mut Pattern, t: &ImportedTrack, ppq: u32)
    requires
        ppq > 0,
        old(p).next_id + t.notes.len() <= u64::MAX,
    ensures
        final(p)@ == plus_notes(old(p)@, t.notes@, ppq),
        final(p).next_id == old(p).next_id + t.notes.len(),
{
    let ghost notes = t.notes@;
    for i in 0..t.notes.len()
        invariant
            ppq > 0,
            notes == t.notes@,
            old(p).next_id + notes.len() <= u64::MAX,
            p.next_id == old(p).next_id + i,
            p@ == plus_notes(old(p)@, notes.take(i as int), ppq),
    {
        let n = t.notes[i];
        proof {
            assert(notes.take(i + 1).drop_last() =~= notes.take(i as int));
        }
        let length = to_steps(n.3, ppq);
        let ghost before = p@;
        let id = p.take_id();
        p.notes.push(
            Note {
                id,
                pitch_index: n.1 as i32 - MIDI_C4,
                start_step: to_steps(n.0, ppq),
                length_steps: if length.units() < HALF_STEP as u128 {
                    Steps { whole: 0, part: HALF_STEP }
                } else {
                    length
                },
                velocity: clamp_level(n.2),
                label: String::new(),
            },
        );
        assert(p@.notes =~= plus_note(before, n, ppq).notes);
    }
    assert(notes.take(notes.len() as int) =~= notes);
}

/// The length of a clip in steps that fits its notes.
fn clip_len(p: &Pattern) -> (r: usize)
    ensures
        r == whole_quarters(p@.notes),
{
    let ghost views = p@.notes;
    let mut end: u128 = 0;
    for i in 0..p.notes.len()
        invariant
            views == p@.notes,
            end == last_end(views.take(i as int)),
            end <= 0x2985_e000_0000_0000_0000_0000_0000_0000,
    {
        proof {
            assert(views.take(i + 1).drop_last() =~= views.take(i as int));
            assert(views.take(i + 1).last() == p.notes[i as int]@);
        }
        let e: u128 = p.notes[i].start_step.units() + p.notes[i].length_steps.units();
        if e > end {
            end = e;
        }
    }
    assert(views.take(views.len() as int) =~= views);
    let steps: u128 = (end + 5_984_083_231_910_783_999) / 5_984_083_231_910_784_000 * 4;
    if steps > usize::MAX as u128 {
        usize::MAX
    } else if steps < MIN_CLIP_STEPS as u128 {
        MIN_CLIP_STEPS
    } else {
        steps as usize
    }
}

/// An empty clip with the time signature of the file.
fn new_clip(data: &ImportData) -> (r: Pattern)
    ensures
        r@ == blank_clip(*data),
{
    let mut p = Pattern::empty(MIN_CLIP_STEPS);
    p.beats_per_bar = data.beats_per_bar;
    p.beat_unit = data.beat_unit;
    p
}

proof fn lemma_selected_notes_split(tracks: Seq<ImportedTrack>, i: int)
    requires
        0 <= i < tracks.len(),
        tracks[i].selected,
    ensures
        selected_notes(tracks.take(i)) + tracks[i].notes.len() <= selected_notes(tracks),
    decreases tracks.len(),
{
    if i == tracks.len() - 1 {
        assert(tracks.take(i) =~= tracks.drop_last());
    } else {
        lemma_selected_notes_split(tracks.drop_last(), i);
        assert(tracks.drop_last().take(i) =~= tracks.take(i));
    }
}

/// The number of notes of the selected tracks, where it can be counted.
pub fn count_notes(data: &ImportData) -> (r: Option<u64>)
    ensures
        match r {
            Some(n) => n == selected_notes(data.tracks@),
            None => selected_notes(data.tracks@) > u64::MAX,
        },
{
    let ghost tracks = data.tracks@;
    let mut n: u64 = 0;
    for i in 0..data.tracks.len()
        invariant
            tracks == data.tracks@,
            n == selected_notes(tracks.take(i as int)),
    {
        proof {
            assert(tracks.take(i + 1).drop_last() =~= tracks.take(i as int));
            assert(tracks.take(i + 1).last() == data.tracks[i as int]);
        }
        if data.tracks[i].selected {
            let more: u64 = data.tracks[i].notes.len() as u64;
            if more > u64::MAX - n {
                proof {
                    lemma_selected_notes_split(tracks, i as int);
                }
                return None;
            }
            n = n + more;
        }
    }
    assert(tracks.take(tracks.len() as int) =~= tracks);
    Some(n)
}

/// Build clip patterns from the currently-selected tracks.
/// `separate`: one clip per selected track; otherwise all merge into one clip.
/// Returns (patterns, clip names).
pub fn build_clips(data: &ImportData, separate: bool) -> (r: (Vec<Pattern>, Vec<String>))
    requires
        data.ppq > 0,
        selected_notes(data.tracks@) <= u64::MAX,
    ensures
        pattern_views(r.0@) == clips_of(*data, separate),
        text_views(r.1@) == clip_names_of(*data, separate),
{
    let ghost tracks = data.tracks@;
    if separate {
        let mut patterns: Vec<Pattern> = Vec::new();
        let mut names: Vec<String> = Vec::new();
        let ghost clip = |t: ImportedTrack| track_clip(*data, t);
        let ghost name = |t: ImportedTrack| t.name@;
        proof {
            reveal(Seq::filter);
            assert(pattern_views(patterns@) =~= selected_tracks(tracks.take(0)).map_values(clip));
            assert(text_views(names@) =~= selected_tracks(tracks.take(0)).map_values(name));
        }
        for i in 0..data.tracks.len()
            invariant
                data.ppq > 0,
                tracks == data.tracks@,
                selected_notes(tracks) <= u64::MAX,
                clip == (|t: ImportedTrack| track_clip(*data, t)),
                name == (|t: ImportedTrack| t.name@),
                pattern_views(patterns@) == selected_tracks(tracks.take(i as int)).map_values(clip),
                text_views(names@) == selected_tracks(tracks.take(i as int)).map_values(name),
        {
            let t = &data.tracks[i];
            let ghost before = selected_tracks(tracks.take(i as int));
            let ghost old_patterns = patterns@;
            let ghost old_names = names@;
            proof {
                reveal(Seq::filter);
                assert(tracks.take(i + 1).drop_last() =~= tracks.take(i as int));
                assert(tracks.take(i + 1).last() == *t);
            }
            if t.selected {
                proof {
                    lemma_selected_notes_split(tracks, i as int);
                    assert(selected_tracks(tracks.take(i + 1)) == before.push(*t));
                }
                let mut p = new_clip(data);
                add_notes(&mut p, t, data.ppq);
                let len = clip_len(&p);
                p.total_steps = len;
                assert(p@ == track_clip(*data, *t));
                patterns.push(p);
                names.push(t.name.clone());
                proof {
                    assert(before.push(*t).map_values(clip) =~= before.map_values(clip).push(
                        clip(*t),
                    ));
                    assert(before.push(*t).map_values(name) =~= before.map_values(name).push(
                        name(*t),
                    ));
                    assert(pattern_views(patterns@) =~= pattern_views(old_patterns).push(clip(*t)));
                    assert(text_views(names@) =~= text_views(old_names).push(name(*t)));
                }
            }
        }
        assert(tracks.take(tracks.len() as int) =~= tracks);
        (patterns, names)
    } else {
        let mut p = new_clip(data);
        for i in 0..data.tracks.len()
            invariant
                data.ppq > 0,
                tracks == data.tracks@,
                selected_notes(tracks) <= u64::MAX,
                p.next_id == selected_notes(tracks.take(i as int)),
                p@ == plus_tracks(blank_clip(*data), tracks.take(i as int), data.ppq),
        {
            let t = &data.tracks[i];
            proof {
                assert(tracks.take(i + 1).drop_last() =~= tracks.take(i as int));
                assert(tracks.take(i + 1).last() == *t);
            }
            if t.selected {
                proof {
                    lemma_selected_notes_split(tracks, i as int);
                }
                add_notes(&mut p, t, data.ppq);
            }
        }
        assert(tracks.take(tracks.len() as int) =~= tracks);
        let len = clip_len(&p);
        p.total_steps = len;
        let mut patterns: Vec<Pattern> = Vec::new();
        patterns.push(p);
        let mut names: Vec<String> = Vec::new();
        names.push(String::from_str("Imported"));
        assert(pattern_views(patterns@) =~= seq![merged_clip(*data)]);
        assert(text_views(names@) =~= seq!["Imported"@]);
        (patterns, names)
    }
}

pub(crate) proof fn lemma_plus_notes(p: PatternView, notes: Seq<TickNote>, ppq: u32)
    requires
        p.next_id + notes.len() <= u64::MAX,
        ids_unique(p),
    ensures
        ({
            let r = plus_notes(p, notes, ppq);
            &&& r.notes == p.notes + Seq::new(
                notes.len(),
                |i: int| clip_note(notes[i], ppq, (p.next_id + i) as u64),
            )
            &&& r.next_id == p.next_id + notes.len()
            &&& ids_unique(r)
        }),
    decreases notes.len(),
{
    let added = |s: Seq<TickNote>|
        Seq::new(s.len(), |i: int| clip_note(s[i], ppq, (p.next_id + i) as u64));
    if notes.len() == 0 {
        assert(p.notes =~= p.notes + added(notes));
    } else {
        lemma_plus_notes(p, notes.drop_last(), ppq);
        let rest = plus_notes(p, notes.drop_last(), ppq);
        assert(added(notes) =~= added(notes.drop_last()).push(
            clip_note(notes.last(), ppq, (p.next_id + notes.len() - 1) as u64),
        ));
        assert(plus_notes(p, notes, ppq).notes =~= p.notes + added(notes));
    }
}

/// A clip built from one track holds exactly the notes of the track, in their
/// order and numbered from zero.
pub proof fn track_clip_holds_the_track(data: ImportData, t: ImportedTrack)
    requires
        t.notes.len() <= u64::MAX,
    ensures
        track_clip(data, t).notes == Seq::new(
            t.notes@.len(),
            |i: int| clip_note(t.notes@[i], data.ppq, i as u64),
        ),
        ids_unique(track_clip(data, t)),
{
    lemma_plus_notes(blank_clip(data), t.notes@, data.ppq);
    assert(track_clip(data, t).notes =~= Seq::new(
        t.notes@.len(),
        |i: int| clip_note(t.notes@[i], data.ppq, i as u64),
    ));
}

/// The notes, with identities counted from `first` on.
pub open spec fn numbered(notes: Seq<NoteView>, first: int) -> Seq<NoteView> {
    Seq::new(notes.len(), |i: int| NoteView { id: (first + i) as u64, ..notes[i] })
}

/// The notes of clips, one clip after the other, numbered from zero.
pub open spec fn joined_notes(clips: Seq<PatternView>) -> Seq<NoteView>
    decreases clips.len(),
{
    if clips.len() == 0 {
        Seq::empty()
    } else {
        let rest = joined_notes(clips.drop_last());
        rest + numbered(clips.last().notes, rest.len() as int)
    }
}

/// The length of the longest of the clips, and at least the shortest length that
/// an imported clip has.
pub open spec fn longest_clip(clips: Seq<PatternView>) -> usize
    decreases clips.len(),
{
    if clips.len() == 0 {
        MIN_CLIP_STEPS
    } else {
        let rest = longest_clip(clips.drop_last());
        if clips.last().total_steps > rest {
            clips.last().total_steps
        } else {
            rest
        }
    }
}

/// The clips of the selected tracks.
spec fn separate_clips(data: ImportData, tracks: Seq<ImportedTrack>) -> Seq<PatternView> {
    selected_tracks(tracks).map_values(|t: ImportedTrack| track_clip(data, t))
}

proof fn lemma_separate_clips(data: ImportData, tracks: Seq<ImportedTrack>)
    ensures
        tracks.len() == 0 ==> separate_clips(data, tracks).len() == 0,
        tracks.len() > 0 ==> separate_clips(data, tracks) == if tracks.last().selected {
            separate_clips(data, tracks.drop_last()).push(track_clip(data, tracks.last()))
        } else {
            separate_clips(data, tracks.drop_last())
        },
{
    reveal(Seq::filter);
    if tracks.len() > 0 && tracks.last().selected {
        assert(separate_clips(data, tracks) =~= separate_clips(data, tracks.drop_last()).push(
            track_clip(data, tracks.last()),
        ));
    }
}

proof fn lemma_last_end_numbered(notes: Seq<NoteView>, first: int)
    ensures
        last_end(numbered(notes, first)) == last_end(notes),
    decreases notes.len(),
{
    if notes.len() > 0 {
        lemma_last_end_numbered(notes.drop_last(), first);
        assert(numbered(notes, first).drop_last() =~= numbered(notes.drop_last(), first));
    }
}

proof fn lemma_last_end_joined(a: Seq<NoteView>, b: Seq<NoteView>)
    ensures
        last_end(a) >= 0,
        last_end(a + b) == if last_end(a) > last_end(b) {
            last_end(a)
        } else {
            last_end(b)
        },
    decreases b.len(),
{
    lemma_last_end(a);
    lemma_last_end(b);
    if b.len() == 0 {
        assert(a + b =~= a);
    } else {
        lemma_last_end_joined(a, b.drop_last());
        assert((a + b).drop_last() =~= a + b.drop_last());
    }
}

proof fn lemma_joined(data: ImportData, tracks: Seq<ImportedTrack>)
    requires
        selected_notes(tracks) <= u64::MAX,
    ensures
        ({
            let r = plus_tracks(blank_clip(data), tracks, data.ppq);
            &&& r.notes == joined_notes(separate_clips(data, tracks))
            &&& r.notes.len() == selected_notes(tracks)
            &&& r.next_id == selected_notes(tracks)
            &&& ids_unique(r)
            &&& whole_quarters(r.notes) == longest_clip(separate_clips(data, tracks))
        }),
    decreases tracks.len(),
{
    let r = plus_tracks(blank_clip(data), tracks, data.ppq);
    lemma_separate_clips(data, tracks);
    if tracks.len() == 0 {
        assert(r.notes =~= Seq::<NoteView>::empty());
    } else {
        let t = tracks.last();
        let before = plus_tracks(blank_clip(data), tracks.drop_last(), data.ppq);
        lemma_joined(data, tracks.drop_last());
        if t.selected {
            lemma_plus_notes(before, t.notes@, data.ppq);
            track_clip_holds_the_track(data, t);
            let own = track_clip(data, t).notes;
            let added = numbered(own, before.notes.len() as int);
            assert(added =~= Seq::new(
                t.notes@.len(),
                |i: int| clip_note(t.notes@[i], data.ppq, (before.next_id + i) as u64),
            ));
            lemma_last_end_numbered(own, before.notes.len() as int);
            lemma_last_end_joined(before.notes, added);
            let clips = separate_clips(data, tracks);
            assert(clips.drop_last() =~= separate_clips(data, tracks.drop_last()));
            assert(clips.last() == track_clip(data, t));
        }
    }
}

/// Importing each track to its own clip gives a clip per selected track, named
/// like it; merging gives one clip, whatever is selected: the separate clips one
/// after the other, with identities of its own, and as long as the longest of
/// them.
pub proof fn merging_joins_the_separate_clips(data: ImportData)
    requires
        selected_notes(data.tracks@) <= u64::MAX,
    ensures
        clips_of(data, true).len() == selected_tracks(data.tracks@).len(),
        clip_names_of(data, true).len() == selected_tracks(data.tracks@).len(),
        clips_of(data, false).len() == 1,
        clip_names_of(data, false) == seq!["Imported"@],
        clips_of(data, false)[0].notes == joined_notes(clips_of(data, true)),
        clips_of(data, false)[0].notes.len() == selected_notes(data.tracks@),
        clips_of(data, false)[0].total_steps == longest_clip(clips_of(data, true)),
        ids_unique(clips_of(data, false)[0]),
{
    lemma_joined(data, data.tracks@);
    assert(clips_of(data, true) == separate_clips(data, data.tracks@));
}

pub(crate) proof fn lemma_last_end(notes: Seq<NoteView>)
    ensures
        last_end(notes) >= 0,
        forall|i: int| 0 <= i < notes.len() ==> end_of(#[trigger] notes[i]) <= last_end(notes),
    decreases notes.len(),
{
    if notes.len() > 0 {
        lemma_last_end(notes.drop_last());
        assert forall|i: int| 0 <= i < notes.len() implies end_of(#[trigger] notes[i]) <= last_end(
            notes,
        ) by {
            if i < notes.len() - 1 {
                assert(notes.drop_last()[i] == notes[i]);
            }
        }
    }
}

/// A fitted clip is long enough for all its notes, a whole number of quarters
/// and at least eight steps long. (On a machine where that number of steps
/// fits in an index.)
pub proof fn fitted_clip_holds_its_notes(p: PatternView)
    requires
        (last_end(p.notes) + UNITS_PER_QUARTER) / (UNITS_PER_QUARTER as int) * 4 <= usize::MAX,
    ensures
        fitted(p).total_steps >= MIN_CLIP_STEPS,
        fitted(p).total_steps % 4 == 0,
        forall|i: int|
            0 <= i < p.notes.len() ==> end_of(#[trigger] p.notes[i]) <= fitted(p).total_units(),
{
    lemma_last_end(p.notes);
}

/// Every note that is over, and every key that is down, started at or before
/// the current tick, and no note ends after it.
pub open spec fn in_the_past(take: NoteTake) -> bool {
    &&& forall|key: u8| #[trigger]
        take.active.contains_key(key) ==> take.active[key].0 <= take.tick
    &&& forall|i: int|
        0 <= i < take.done.len() ==> (#[trigger] take.done[i]).0 + take.done[i].3 <= take.tick
}

proof fn lemma_take_in_the_past(events: Seq<TimedView>)
    ensures
        in_the_past(note_take(events)),
    decreases events.len(),
{
    if events.len() > 0 {
        lemma_take_in_the_past(events.drop_last());
    }
}

proof fn lemma_close_in_the_past(take: NoteTake, upto: nat)
    requires
        in_the_past(take),
    ensures
        in_the_past(take.close(upto)),
        take.close(upto).tick == take.tick,
    decreases upto,
{
    if upto > 0 {
        lemma_close_in_the_past(take, (upto - 1) as nat);
    }
}

/// The notes of an imported track come in the order of their starts, are
/// exactly those of the strikes that sound, and none ends after the last event.
pub proof fn imported_notes_are_in_order(t: ImportedTrack, events: Seq<TimedView>, index: int)
    requires
        is_track_import(t, events, index),
    ensures
        forall|i: int, j: int|
            0 <= i <= j < t.notes@.len() ==> (#[trigger] t.notes@[i]).0 <= (
            #[trigger] t.notes@[j]).0,
        t.notes@.to_multiset() == strike_notes(events, events.len() as int).to_multiset(),
        forall|i: int|
            0 <= i < t.notes@.len() ==> (#[trigger] t.notes@[i]).0 + t.notes@[i].3 <= note_take(
                events,
            ).tick,
{
    stable_sort_is_permutation(t.notes@, track_notes(events));
    a_track_has_a_note_per_strike(events);
    lemma_take_in_the_past(events);
    lemma_close_in_the_past(note_take(events), 256);
    assert forall|i: int, j: int| 0 <= i <= j < t.notes@.len() implies (
    #[trigger] t.notes@[i]).0 <= (#[trigger] t.notes@[j]).0 by {
        assert(t.notes@[i].key() <= t.notes@[j].key());
    }
    assert forall|i: int| 0 <= i < t.notes@.len() implies (#[trigger] t.notes@[i]).0
        + t.notes@[i].3 <= note_take(events).tick by {
        assert(t.notes@.contains(t.notes@[i]));
        assert(track_notes(events).contains(t.notes@[i]));
    }
}

// ---------------------------------------------------------------------------
// Notes and strikes
// ---------------------------------------------------------------------------

/// The tick of the last of the first `n` events.
pub open spec fn tick_of(events: Seq<TimedView>, n: int) -> u64
    decreases n,
{
    if n <= 0 {
        0
    } else {
        tick_after(tick_of(events, n - 1), events[n - 1].delta)
    }
}

/// The event strikes a key.
pub open spec fn is_strike(ev: EventView) -> bool {
    ev matches EventView::NoteOn { key, vel } && vel != 0
}

/// The event strikes or releases key `key`.
pub open spec fn touches(ev: EventView, key: u8) -> bool {
    match ev {
        EventView::NoteOn { key: k, .. } => k == key,
        EventView::NoteOff { key: k } => k == key,
        _ => false,
    }
}

/// The key that a strike strikes.
pub open spec fn struck_key(ev: EventView) -> u8 {
    match ev {
        EventView::NoteOn { key, .. } => key,
        _ => 0,
    }
}

/// The level of a strike.
pub open spec fn struck_level(ev: EventView) -> i32 {
    match ev {
        EventView::NoteOn { vel, .. } => (vel * LEVEL_PER_VELOCITY) as i32,
        _ => 0,
    }
}

/// The first event from `from` on, and before `to`, that strikes or releases
/// `key`, or `to`.
pub open spec fn next_touch(events: Seq<TimedView>, key: u8, from: int, to: int) -> int
    decreases to - from,
{
    if from >= to {
        to
    } else if touches(events[from].kind, key) {
        from
    } else {
        next_touch(events, key, from + 1, to)
    }
}

/// Event `i` is a strike whose key is not struck again before it is released.
pub open spec fn sounds(events: Seq<TimedView>, i: int) -> bool {
    let n = events.len() as int;
    let j = next_touch(events, struck_key(events[i].kind), i + 1, n);
    is_strike(events[i].kind) && (j < n ==> !is_strike(events[j].kind))
}

/// The note of strike `i`: from its tick to the release of its key, or to the
/// last event.
pub open spec fn note_of_strike(events: Seq<TimedView>, i: int) -> TickNote {
    let n = events.len() as int;
    let key = struck_key(events[i].kind);
    let j = next_touch(events, key, i + 1, n);
    let start = tick_of(events, i + 1);
    let end = if j < n {
        tick_of(events, j + 1)
    } else {
        tick_of(events, n)
    };
    (start, key, struck_level(events[i].kind), ticks_since(end, start))
}

/// One note for each of the first `n` events that is a strike and sounds.
pub open spec fn strike_notes(events: Seq<TimedView>, n: int) -> Seq<TickNote>
    decreases n,
{
    if n <= 0 {
        Seq::empty()
    } else if sounds(events, n - 1) {
        strike_notes(events, n - 1).push(note_of_strike(events, n - 1))
    } else {
        strike_notes(events, n - 1)
    }
}

/// Strike `i` is over after the first `m` events: its key was released, and not
/// struck again before.
pub open spec fn over(events: Seq<TimedView>, m: int, i: int) -> bool {
    let j = next_touch(events, struck_key(events[i].kind), i + 1, m);
    is_strike(events[i].kind) && j < m && !is_strike(events[j].kind)
}

/// The note of a strike that is over after the first `m` events.
pub open spec fn over_note(events: Seq<TimedView>, m: int, i: int) -> TickNote {
    let key = struck_key(events[i].kind);
    let j = next_touch(events, key, i + 1, m);
    let start = tick_of(events, i + 1);
    (start, key, struck_level(events[i].kind), ticks_since(tick_of(events, j + 1), start))
}

/// The notes of those of the first `n` strikes that are over after the first `m`
/// events.
spec fn over_notes(events: Seq<TimedView>, m: int, n: int) -> Multiset<TickNote>
    decreases n,
{
    if n <= 0 {
        Multiset::empty()
    } else if over(events, m, n - 1) {
        over_notes(events, m, n - 1).insert(over_note(events, m, n - 1))
    } else {
        over_notes(events, m, n - 1)
    }
}

/// The last of the first `m` events that strikes or releases `key`, or -1.
spec fn last_touch(events: Seq<TimedView>, key: u8, m: int) -> int
    decreases m,
{
    if m <= 0 {
        -1
    } else if touches(events[m - 1].kind, key) {
        m - 1
    } else {
        last_touch(events, key, m - 1)
    }
}

pub(crate) proof fn lemma_next_touch(events: Seq<TimedView>, key: u8, from: int, to: int)
    requires
        from <= to,
    ensures
        ({
            let j = next_touch(events, key, from, to);
            &&& from <= j <= to
            &&& j < to ==> touches(events[j].kind, key)
            &&& forall|k: int| from <= k < j ==> !touches((#[trigger] events[k]).kind, key)
        }),
    decreases to - from,
{
    if from < to && !touches(events[from].kind, key) {
        lemma_next_touch(events, key, from + 1, to);
    }
}

pub(crate) proof fn lemma_next_touch_is(events: Seq<TimedView>, key: u8, from: int, to: int, j: int)
    requires
        from <= j <= to,
        j < to ==> touches(events[j].kind, key),
        forall|k: int| from <= k < j ==> !touches((#[trigger] events[k]).kind, key),
    ensures
        next_touch(events, key, from, to) == j,
    decreases to - from,
{
    if from < j {
        assert(!touches(events[from].kind, key));
        lemma_next_touch_is(events, key, from + 1, to, j);
    }
}

proof fn lemma_last_touch(events: Seq<TimedView>, key: u8, m: int)
    ensures
        ({
            let j = last_touch(events, key, m);
            &&& -1 <= j
            &&& j < m || m <= 0
            &&& j >= 0 ==> touches(events[j].kind, key)
            &&& forall|k: int| j < k < m ==> !touches((#[trigger] events[k]).kind, key)
        }),
    decreases m,
{
    if m > 0 && !touches(events[m - 1].kind, key) {
        lemma_last_touch(events, key, m - 1);
    }
}

/// With one more event, the strikes that are over stay over with the same note,
/// and at most one more is: the strike that the event releases.
proof fn lemma_over_step(events: Seq<TimedView>, m: int, i: int)
    requires
        0 <= i < m,
    ensures
        over(events, m, i) ==> over(events, m + 1, i) && over_note(events, m + 1, i) == over_note(
            events,
            m,
            i,
        ),
        !over(events, m, i) && is_strike(events[i].kind) ==> (over(events, m + 1, i) <==> {
            let key = struck_key(events[i].kind);
            &&& last_touch(events, key, m) == i
            &&& touches(events[m].kind, key)
            &&& !is_strike(events[m].kind)
        }),
        !is_strike(events[i].kind) ==> !over(events, m + 1, i),
        !over(events, m, i) && over(events, m + 1, i) ==> next_touch(
            events,
            struck_key(events[i].kind),
            i + 1,
            m + 1,
        ) == m,
{
    if is_strike(events[i].kind) {
        let key = struck_key(events[i].kind);
        let j = next_touch(events, key, i + 1, m);
        lemma_next_touch(events, key, i + 1, m);
        lemma_last_touch(events, key, m);
        let l = last_touch(events, key, m);
        assert(touches(events[i].kind, key));
        if j < m {
            lemma_next_touch_is(events, key, i + 1, m + 1, j);
            assert(l >= j) by {
                if l < j {
                    assert(!touches(events[j].kind, key));
                }
            }
        } else {
            assert(l == i) by {
                if l > i {
                    assert(!touches(events[l].kind, key));
                }
                if l < i {
                    assert(!touches(events[i].kind, key));
                }
            }
            if touches(events[m].kind, key) {
                lemma_next_touch_is(events, key, i + 1, m + 1, m);
            } else {
                lemma_next_touch_is(events, key, i + 1, m + 1, m + 1);
            }
        }
    }
}

/// The strike that event `m` releases, or -1.
spec fn released(events: Seq<TimedView>, m: int) -> int {
    match events[m].kind {
        EventView::NoteOn { key, vel } => if vel == 0 && last_touch(events, key, m) >= 0
            && is_strike(events[last_touch(events, key, m)].kind) {
            last_touch(events, key, m)
        } else {
            -1
        },
        EventView::NoteOff { key } => if last_touch(events, key, m) >= 0 && is_strike(
            events[last_touch(events, key, m)].kind,
        ) {
            last_touch(events, key, m)
        } else {
            -1
        },
        _ => -1,
    }
}

proof fn lemma_over_notes_step(events: Seq<TimedView>, m: int, n: int)
    requires
        0 <= n <= m,
    ensures
        ({
            let r = released(events, m);
            over_notes(events, m + 1, n) == if 0 <= r < n {
                over_notes(events, m, n).insert(over_note(events, m + 1, r))
            } else {
                over_notes(events, m, n)
            }
        }),
    decreases n,
{
    if n > 0 {
        let i = n - 1;
        let r = released(events, m);
        lemma_over_notes_step(events, m, i);
        lemma_over_step(events, m, i);
        let key = struck_key(events[i].kind);
        lemma_last_touch(events, key, m);
        match events[m].kind {
            EventView::NoteOn { key: up, .. } => {
                lemma_last_touch(events, up, m);
            },
            EventView::NoteOff { key: up } => {
                lemma_last_touch(events, up, m);
            },
            _ => {},
        }
        if is_strike(events[i].kind) && !over(events, m, i) {
            assert(over(events, m + 1, i) == (r == i));
        }
        if r == i {
            assert(is_strike(events[i].kind));
            assert(!over(events, m, i)) by {
                let j = next_touch(events, key, i + 1, m);
                lemma_next_touch(events, key, i + 1, m);
                if j < m {
                    assert(!touches(events[j].kind, key));
                }
            }
        }
        assert(over_notes(events, m + 1, n) =~= if 0 <= r < n {
            over_notes(events, m, n).insert(over_note(events, m + 1, r))
        } else {
            over_notes(events, m, n)
        });
    }
}

/// What is known after `m` events: the keys that are down are those whose last
/// touch is a strike, and the notes that are over are those of the strikes that
/// are over.
proof fn lemma_take_by_strikes(events: Seq<TimedView>, m: int)
    requires
        0 <= m <= events.len(),
    ensures
        ({
            let take = note_take(events.take(m));
            &&& take.tick == tick_of(events, m)
            &&& forall|key: u8| #[trigger]
                take.active.contains_key(key) <==> {
                    let l = last_touch(events, key, m);
                    l >= 0 && is_strike(events[l].kind)
                }
            &&& forall|key: u8| #[trigger]
                take.active.contains_key(key) ==> {
                    let l = last_touch(events, key, m);
                    take.active[key] == (tick_of(events, l + 1), struck_level(events[l].kind))
                }
            &&& take.done.to_multiset() == over_notes(events, m, m)
        }),
    decreases m,
{
    broadcast use vstd::seq_lib::group_to_multiset_ensures;

    if m == 0 {
        assert(events.take(0) =~= Seq::<TimedView>::empty());
        assert(note_take(events.take(0)).done.to_multiset() =~= Multiset::<TickNote>::empty());
    } else {
        let k = m - 1;
        lemma_take_by_strikes(events, k);
        assert(events.take(m).drop_last() =~= events.take(k));
        let before = note_take(events.take(k));
        let after = note_take(events.take(m));
        let ev = events[k].kind;
        let r = released(events, k);
        lemma_over_notes_step(events, k, k);
        assert(!over(events, m, k)) by {
            lemma_next_touch(events, struck_key(ev), k + 1, m);
        }
        assert(over_notes(events, m, m) == over_notes(events, m, k));
        assert forall|key: u8| #[trigger] after.active.contains_key(key) <==> {
            let l = last_touch(events, key, m);
            l >= 0 && is_strike(events[l].kind)
        } by {
            assert(before.active.contains_key(key) <==> {
                let l = last_touch(events, key, k);
                l >= 0 && is_strike(events[l].kind)
            });
        }
        assert forall|key: u8| #[trigger] after.active.contains_key(key) implies ({
            let l = last_touch(events, key, m);
            after.active[key] == (tick_of(events, l + 1), struck_level(events[l].kind))
        }) by {
            if !touches(ev, key) {
                assert(before.active.contains_key(key));
            }
        }
        if r >= 0 {
            let key = struck_key(events[r].kind);
            lemma_last_touch(events, key, k);
            match ev {
                EventView::NoteOn { key: down, vel } => {
                    lemma_last_touch(events, down, k);
                    assert(down == key);
                },
                EventView::NoteOff { key: down } => {
                    lemma_last_touch(events, down, k);
                    assert(down == key);
                },
                _ => {},
            }
            assert(before.active.contains_key(key));
            lemma_over_step(events, k, r);
            assert(!over(events, k, r)) by {
                let j = next_touch(events, key, r + 1, k);
                lemma_next_touch(events, key, r + 1, k);
                if j < k {
                    assert(!touches(events[j].kind, key));
                }
            }
            assert(over(events, m, r));
            assert(after.done == before.done.push(over_note(events, m, r)));
        } else {
            match ev {
                EventView::NoteOn { key: down, vel } => {
                    assert(vel == 0 ==> !before.active.contains_key(down));
                },
                EventView::NoteOff { key: down } => {
                    assert(!before.active.contains_key(down));
                },
                _ => {},
            }
            assert(after.done == before.done);
        }
    }
}

/// The events, with a release of every key below `n` at the last tick.
spec fn with_releases(events: Seq<TimedView>, n: nat) -> Seq<TimedView>
    decreases n,
{
    if n == 0 {
        events
    } else {
        with_releases(events, (n - 1) as nat).push(
            TimedView { delta: 0, kind: EventView::NoteOff { key: (n - 1) as u8 } },
        )
    }
}

proof fn lemma_with_releases(events: Seq<TimedView>, n: nat)
    requires
        n <= 256,
    ensures
        ({
            let all = with_releases(events, n);
            &&& all.len() == events.len() + n
            &&& forall|i: int| 0 <= i < events.len() ==> #[trigger] all[i] == events[i]
            &&& forall|i: int|
                events.len() <= i < all.len() ==> (#[trigger] all[i]) == (TimedView {
                    delta: 0,
                    kind: EventView::NoteOff { key: (i - events.len()) as u8 },
                })
            &&& note_take(all) == note_take(events).close(n)
        }),
    decreases n,
{
    if n > 0 {
        lemma_with_releases(events, (n - 1) as nat);
        let all = with_releases(events, n);
        assert(all.drop_last() =~= with_releases(events, (n - 1) as nat));
        lemma_close_tick(note_take(events), (n - 1) as nat);
    }
}

proof fn lemma_close_tick(take: NoteTake, upto: nat)
    ensures
        take.close(upto).tick == take.tick,
    decreases upto,
{
    if upto > 0 {
        lemma_close_tick(take, (upto - 1) as nat);
    }
}

proof fn lemma_tick_prefix(a: Seq<TimedView>, b: Seq<TimedView>, n: int)
    requires
        n <= a.len() <= b.len(),
        forall|i: int| 0 <= i < a.len() ==> #[trigger] b[i] == a[i],
    ensures
        tick_of(b, n) == tick_of(a, n),
    decreases n,
{
    if n > 0 {
        lemma_tick_prefix(a, b, n - 1);
        assert(b[n - 1] == a[n - 1]);
    }
}

proof fn lemma_tick_after_end(events: Seq<TimedView>, n: int)
    requires
        events.len() <= n <= events.len() + 256,
    ensures
        tick_of(with_releases(events, 256), n) == tick_of(events, events.len() as int),
    decreases n,
{
    let all = with_releases(events, 256);
    lemma_with_releases(events, 256);
    if n > events.len() {
        lemma_tick_after_end(events, n - 1);
        assert(all[n - 1].delta == 0);
    } else {
        lemma_tick_prefix(events, all, n);
    }
}

proof fn lemma_next_touch_prefix(
    a: Seq<TimedView>,
    b: Seq<TimedView>,
    key: u8,
    from: int,
    to: int,
)
    requires
        0 <= from <= to <= a.len() <= b.len(),
        forall|i: int| 0 <= i < a.len() ==> #[trigger] b[i] == a[i],
    ensures
        next_touch(b, key, from, to) == next_touch(a, key, from, to),
    decreases to - from,
{
    if from < to {
        assert(b[from] == a[from]);
        lemma_next_touch_prefix(a, b, key, from + 1, to);
    }
}

/// With all keys released at the end, the strikes that are over are those that
/// sound, with the same notes.
proof fn lemma_over_at_end(events: Seq<TimedView>, i: int)
    requires
        0 <= i < events.len(),
    ensures
        ({
            let all = with_releases(events, 256);
            &&& over(all, all.len() as int, i) == sounds(events, i)
            &&& sounds(events, i) ==> over_note(all, all.len() as int, i) == note_of_strike(
                events,
                i,
            )
        }),
{
    let all = with_releases(events, 256);
    let n = events.len() as int;
    let m = all.len() as int;
    lemma_with_releases(events, 256);
    assert(all[i] == events[i]);
    if is_strike(events[i].kind) {
        let key = struck_key(events[i].kind);
        let j = next_touch(events, key, i + 1, n);
        lemma_next_touch(events, key, i + 1, n);
        lemma_tick_prefix(events, all, i + 1);
        if j < n {
            assert forall|k: int| i + 1 <= k < j implies !touches((#[trigger] all[k]).kind, key) by {
                assert(all[k] == events[k]);
            }
            assert(all[j] == events[j]);
            lemma_next_touch_is(all, key, i + 1, m, j);
            lemma_tick_prefix(events, all, j + 1);
        } else {
            let z = n + key;
            assert forall|k: int| i + 1 <= k < z implies !touches((#[trigger] all[k]).kind, key) by {
                if k < n {
                    assert(all[k] == events[k]);
                }
            }
            assert(touches(all[z].kind, key));
            lemma_next_touch_is(all, key, i + 1, m, z);
            lemma_tick_after_end(events, z + 1);
        }
    }
}

proof fn lemma_strike_notes(events: Seq<TimedView>, n: int)
    requires
        0 <= n <= events.len(),
    ensures
        ({
            let all = with_releases(events, 256);
            over_notes(all, all.len() as int, n) == strike_notes(events, n).to_multiset()
        }),
    decreases n,
{
    broadcast use vstd::seq_lib::group_to_multiset_ensures;

    if n > 0 {
        lemma_strike_notes(events, n - 1);
        lemma_over_at_end(events, n - 1);
    } else {
        assert(strike_notes(events, 0).to_multiset() =~= Multiset::<TickNote>::empty());
    }
}

proof fn lemma_no_late_strikes(events: Seq<TimedView>, n: int)
    requires
        events.len() <= n <= events.len() + 256,
    ensures
        ({
            let all = with_releases(events, 256);
            over_notes(all, all.len() as int, n) == over_notes(
                all,
                all.len() as int,
                events.len() as int,
            )
        }),
    decreases n,
{
    lemma_with_releases(events, 256);
    if n > events.len() {
        lemma_no_late_strikes(events, n - 1);
        assert(!is_strike(with_releases(events, 256)[n - 1].kind));
    }
}

/// A track has one note for each strike of a key that is not struck again before
/// it is released: from the strike to the release, or to the last event where
/// the key is never released.
pub proof fn a_track_has_a_note_per_strike(events: Seq<TimedView>)
    ensures
        track_notes(events).to_multiset() == strike_notes(
            events,
            events.len() as int,
        ).to_multiset(),
{
    let all = with_releases(events, 256);
    lemma_with_releases(events, 256);
    assert(all.take(all.len() as int) =~= all);
    lemma_take_by_strikes(all, all.len() as int);
    lemma_no_late_strikes(events, all.len() as int);
    lemma_strike_notes(events, events.len() as int);
}

/// Ticks become the nearest grid position, at most half a unit away; where the
/// division of the file divides the units of a quarter, they become it exactly.
pub proof fn ticks_become_the_nearest_unit(ticks: u64, ppq: u32)
    requires
        ppq > 0,
        nearest(ticks * UNITS_PER_QUARTER, ppq as int) <= max_units(),
    ensures
        ({
            let off = units_of_ticks(ticks, ppq) * ppq - ticks * UNITS_PER_QUARTER;
            &&& -(ppq as int) <= 2 * off <= ppq
            &&& UNITS_PER_QUARTER as int % ppq as int == 0 ==> off == 0
        }),
{
    let p = ticks * UNITS_PER_QUARTER;
    let d = ppq as int;
    let q = nearest(p, d);
    assert(p >= 0) by (nonlinear_arith)
        requires
            p == ticks * UNITS_PER_QUARTER,
    ;
    assert(2 * (q * d) <= 2 * p + d && 2 * p < 2 * (q * d) + d && q >= 0) by (nonlinear_arith)
        requires
            q == (2 * p + d) / (2 * d),
            d > 0,
            p >= 0,
    ;
    if UNITS_PER_QUARTER as int % d == 0 {
        let m = UNITS_PER_QUARTER as int / d;
        vstd::arithmetic::div_mod::lemma_fundamental_div_mod(UNITS_PER_QUARTER as int, d);
        assert(p == (ticks * m) * d) by (nonlinear_arith)
            requires
                p == ticks * UNITS_PER_QUARTER,
                UNITS_PER_QUARTER == d * m,
        ;
        assert(ticks * m >= 0) by (nonlinear_arith)
            requires
                d * m >= 0,
                d > 0,
        ;
        lemma_nearest_whole(ticks * m, d);
    }
}

} // verus!
