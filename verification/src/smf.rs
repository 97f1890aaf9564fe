//! Standard MIDI files as plain values.
//!
//! The bytes are decoded by the `midly` crate; here its result is walked and
//! copied into the library's own types.
use midly::{MetaMessage, MidiMessage, TrackEventKind};
use vstd::prelude::*;
use vstd::slice::slice_subrange;

#[allow(unused_imports)]
use vstd::utf8::{encode_utf8, valid_utf8};

verus! {

/// How a file counts time.
#[derive(Debug, Clone, Copy, PartialEq, Eq, Structural)]
pub enum TimeDivision {
    /// Ticks per quarter note.
    Metrical(u16),
    /// Ticks per second, by SMPTE frames.
    Timecode,
}

/// What an event of a track says, as far as the import reads it.
#[derive(Debug)]
pub enum EventKind {
    /// A key goes down. A velocity of zero means that it comes up.
    NoteOn { key: u8, vel: u8 },
    /// A key comes up.
    NoteOff { key: u8 },
    /// The name of the track, in whatever encoding the file uses.
    TrackName(Vec<u8>),
    /// Microseconds per quarter note.
    Tempo(u32),
    /// Beats per bar, and the beat unit as a power of two.
    TimeSignature(u8, u8),
    /// Anything else.
    Other,
}

/// An event and its distance, in ticks, from the event before it.
#[derive(Debug)]
pub struct TimedEvent {
    pub delta: u32,
    pub kind: EventKind,
}

/// A decoded file.
#[derive(Debug)]
pub struct MidiFile {
    pub timing: TimeDivision,
    pub tracks: Vec<Vec<TimedEvent>>,
}

/// What an `EventKind` is.
pub enum EventView {
    NoteOn { key: u8, vel: u8 },
    NoteOff { key: u8 },
    TrackName(Seq<u8>),
    Tempo(u32),
    TimeSignature(u8, u8),
    Other,
}

/// What a `TimedEvent` is.
pub struct TimedView {
    pub delta: u32,
    pub kind: EventView,
}

/// What a `MidiFile` is.
pub struct MidiView {
    pub timing: TimeDivision,
    pub tracks: Seq<Seq<TimedView>>,
}

impl View for EventKind {
    type V = EventView;

    open spec fn view(&self) -> EventView {
        match *self {
            EventKind::NoteOn { key, vel } => EventView::NoteOn { key, vel },
            EventKind::NoteOff { key } => EventView::NoteOff { key },
            EventKind::TrackName(b) => EventView::TrackName(b@),
            EventKind::Tempo(t) => EventView::Tempo(t),
            EventKind::TimeSignature(n, d) => EventView::TimeSignature(n, d),
            EventKind::Other => EventView::Other,
        }
    }
}

impl View for TimedEvent {
    type V = TimedView;

    open spec fn view(&self) -> TimedView {
        TimedView { delta: self.delta, kind: self.kind@ }
    }
}

/// The contents of a list of events.
pub open spec fn event_views(s: Seq<TimedEvent>) -> Seq<TimedView> {
    Seq::new(s.len(), |i: int| s[i]@)
}

/// The contents of a list of tracks.
pub open spec fn track_views(s: Seq<Vec<TimedEvent>>) -> Seq<Seq<TimedView>> {
    Seq::new(s.len(), |i: int| event_views(s[i]@))
}

impl View for MidiFile {
    type V = MidiView;

    open spec fn view(&self) -> MidiView {
        MidiView { timing: self.timing, tracks: track_views(self.tracks@) }
    }
}

/// `midly::Smf`, a decoded Standard MIDI File.
#[verifier::external_type_specification]
#[verifier::external_body]
pub struct ExSmf<'a>(midly::Smf<'a>);

/// What `midly::Smf::parse` makes of the bytes of a file: the decoded file, or
/// the text of its error.
pub uninterp spec fn smf_outcome(bytes: Seq<u8>) -> Result<MidiView, Seq<char>>;

/// The tracks that a decoded file holds, each event reduced to what the import
/// reads of it.
pub uninterp spec fn smf_tracks(smf: &midly::Smf) -> Seq<Seq<TimedView>>;

/// The time division that a decoded file holds.
pub uninterp spec fn smf_timing(smf: &midly::Smf) -> TimeDivision;

/// What `String::from_utf8_lossy` makes of a byte string.
pub uninterp spec fn lossy_text(bytes: Seq<u8>) -> Seq<char>;

/// The four bytes of `b` at `at` are these.
pub open spec fn id_at(b: Seq<u8>, at: int, w: u8, x: u8, y: u8, z: u8) -> bool {
    &&& 0 <= at <= b.len() - 4
    &&& b[at] == w
    &&& b[at + 1] == x
    &&& b[at + 2] == y
    &&& b[at + 3] == z
}

/// `MThd`, the identifier of a header chunk.
pub open spec fn header_id_at(b: Seq<u8>, at: int) -> bool {
    id_at(b, at, 0x4d, 0x54, 0x68, 0x64)
}

/// `MTrk`, the identifier of a track chunk.
pub open spec fn track_id_at(b: Seq<u8>, at: int) -> bool {
    id_at(b, at, 0x4d, 0x54, 0x72, 0x6b)
}

/// `RIFF`, the identifier of a container.
pub open spec fn riff_id_at(b: Seq<u8>, at: int) -> bool {
    id_at(b, at, 0x52, 0x49, 0x46, 0x46)
}

/// `RMID`, the form of a container that holds a MIDI file.
pub open spec fn rmid_id_at(b: Seq<u8>, at: int) -> bool {
    id_at(b, at, 0x52, 0x4d, 0x49, 0x44)
}

/// `data`, the identifier of the chunk of a container that holds the MIDI file.
pub open spec fn data_id_at(b: Seq<u8>, at: int) -> bool {
    id_at(b, at, 0x64, 0x61, 0x74, 0x61)
}

/// The big-endian length at `at`.
pub open spec fn length_at(b: Seq<u8>, at: int) -> int {
    ((b[at] * 256 + b[at + 1]) * 256 + b[at + 2]) * 256 + b[at + 3]
}

/// The little-endian length at `at`.
pub open spec fn riff_length_at(b: Seq<u8>, at: int) -> int {
    ((b[at + 3] * 256 + b[at + 2]) * 256 + b[at + 1]) * 256 + b[at]
}

/// The end of `n` bytes from `from`, which stop at `end`.
pub open spec fn stop_at(from: int, n: int, end: int) -> int {
    if n < end - from {
        from + n
    } else {
        end
    }
}

/// How a header chunk reads.
pub enum HeaderRead {
    /// It gives a format and a time division.
    Good,
    /// It is too short, or the format or the frame rate is unknown.
    Broken,
    /// It gives -128 frames per second.
    Odd,
}

/// How the header chunk with the data `from .. to` reads: first the format, then
/// the number of tracks, then the time division.
pub open spec fn header_read(b: Seq<u8>, from: int, to: int) -> HeaderRead {
    if to - from < 6 || b[from] != 0 || b[from + 1] > 2 {
        HeaderRead::Broken
    } else if b[from + 4] < 0x80 {
        HeaderRead::Good
    } else if b[from + 4] == 0x80 {
        HeaderRead::Odd
    } else if b[from + 4] == 232 || b[from + 4] == 231 || b[from + 4] == 227 || b[from + 4]
        == 226 {
        HeaderRead::Good
    } else {
        HeaderRead::Broken
    }
}

/// In the chunk list `at .. end`, the place of the first header chunk that gives
/// -128 frames per second, and whether a header stands before it (`seen` says so
/// of what came before `at`). A broken header ends the reading, and so does a
/// track before any header.
pub open spec fn odd_header_in(b: Seq<u8>, at: int, end: int, seen: bool) -> Option<(int, bool)>
    decreases end - at,
{
    if !(0 <= at && at + 8 <= end <= b.len()) {
        None
    } else {
        let stop = stop_at(at + 8, length_at(b, at + 4), end);
        if header_id_at(b, at) {
            match header_read(b, at + 8, stop) {
                HeaderRead::Good => odd_header_in(b, stop, end, true),
                HeaderRead::Broken => None,
                HeaderRead::Odd => Some((at, seen)),
            }
        } else if track_id_at(b, at) && !seen {
            None
        } else {
            odd_header_in(b, stop, end, seen)
        }
    }
}

/// In the list of container chunks `at .. end`, where the data of the first
/// `data` chunk starts and ends. Chunks of odd length are padded.
pub open spec fn riff_data_in(b: Seq<u8>, at: int, end: int) -> Option<(int, int)>
    decreases end - at,
{
    if !(0 <= at && at + 8 <= end <= b.len()) {
        None
    } else {
        let n = riff_length_at(b, at + 4);
        let stop = stop_at(at + 8, n, end);
        if data_id_at(b, at) {
            Some((at + 8, stop))
        } else if n % 2 == 1 && stop < end {
            riff_data_in(b, stop + 1, end)
        } else {
            riff_data_in(b, stop, end)
        }
    }
}

/// Where the chunk list of a file starts and ends: the whole file, or the `data`
/// chunk of an RMID container.
pub open spec fn chunk_list(b: Seq<u8>) -> Option<(int, int)> {
    if header_id_at(b, 0) {
        Some((0, b.len() as int))
    } else if riff_id_at(b, 0) && b.len() >= 8 {
        let end = stop_at(8, riff_length_at(b, 4), b.len() as int);
        if end >= 12 && rmid_id_at(b, 8) {
            riff_data_in(b, 12, end)
        } else {
            None
        }
    } else {
        None
    }
}

/// The place of the first header chunk, of those that are read, that gives -128
/// frames per second, and whether a header stands before it.
pub open spec fn odd_header(b: Seq<u8>) -> Option<(int, bool)> {
    match chunk_list(b) {
        Some((start, end)) => odd_header_in(b, start, end, false),
        None => None,
    }
}

/// No header that is read gives -128 frames per second, which cannot be negated
/// in a signed byte.
pub open spec fn frame_rate_readable(b: Seq<u8>) -> bool {
    odd_header(b) is None
}

/// The header of the file itself gives -128 frames per second.
pub open spec fn impossible_frame_rate(b: Seq<u8>) -> bool {
    odd_header(b) matches Some(p) && !p.1
}

/// The part of a file that is read: all of it, or what stands before a second
/// header that gives -128 frames per second. Broken headers behind the first one
/// end the file.
pub open spec fn readable_part(b: Seq<u8>) -> Seq<u8> {
    match odd_header(b) {
        Some(p) => if p.1 {
            b.take(p.0)
        } else {
            b
        },
        None => b,
    }
}

/// `midly::Smf::parse`: decodes a Standard MIDI File. The outcome depends on
/// the bytes alone. A file that it refuses gives the text of its error. It
/// negates the frame rate of a timecode header in a signed byte, so a frame
/// rate of -128 is kept away from it.
#[verifier::external_body]
fn smf_parse(bytes: &[u8]) -> (r: Result<midly::Smf<'_>, String>)
    requires
        frame_rate_readable(bytes@),
    ensures
        match r {
            Ok(smf) => smf_outcome(bytes@) == Ok::<MidiView, Seq<char>>(
                MidiView { timing: smf_timing(&smf), tracks: smf_tracks(&smf) },
            ),
            Err(text) => smf_outcome(bytes@) == Err::<MidiView, Seq<char>>(text@),
        },
{
    midly::Smf::parse(bytes).map_err(|e| e.to_string())
}

/// The `header.timing` field of a `midly::Smf`.
#[verifier::external_body]
fn timing_of(smf: &midly::Smf) -> (r: TimeDivision)
    ensures
        r == smf_timing(smf),
{
    match smf.header.timing {
        midly::Timing::Metrical(ticks) => TimeDivision::Metrical(ticks.as_int()),
        midly::Timing::Timecode(..) => TimeDivision::Timecode,
    }
}

/// The length of the `tracks` field of a `midly::Smf`.
#[verifier::external_body]
fn track_count(smf: &midly::Smf) -> (r: usize)
    ensures
        r == smf_tracks(smf).len(),
{
    smf.tracks.len()
}

/// The number of events in a track of a `midly::Smf`.
#[verifier::external_body]
fn event_count(smf: &midly::Smf, track: usize) -> (r: usize)
    requires
        track < smf_tracks(smf).len(),
    ensures
        r == smf_tracks(smf)[track as int].len(),
{
    smf.tracks[track].len()
}

/// The key and the velocity of an event have seven bits.
pub open spec fn in_seven_bits(ev: EventView) -> bool {
    match ev {
        EventView::NoteOn { key, vel } => key < 128 && vel < 128,
        EventView::NoteOff { key } => key < 128,
        _ => true,
    }
}

/// The keys and velocities of all events of a track have seven bits.
pub open spec fn track_in_seven_bits(events: Seq<TimedView>) -> bool {
    forall|i: int| 0 <= i < events.len() ==> in_seven_bits((#[trigger] events[i]).kind)
}

/// One event of a track of a `midly::Smf`: its `delta`, and its `kind` with the
/// numbers taken out of the restricted integers. Keys and velocities are kept in
/// integers of seven bits.
#[verifier::external_body]
fn event_of(smf: &midly::Smf, track: usize, index: usize) -> (r: TimedEvent)
    requires
        track < smf_tracks(smf).len(),
        index < smf_tracks(smf)[track as int].len(),
    ensures
        r@ == smf_tracks(smf)[track as int][index as int],
        in_seven_bits(r@.kind),
{
    let ev = smf.tracks[track][index];
    let kind = match ev.kind {
        TrackEventKind::Midi { message: MidiMessage::NoteOn { key, vel }, .. } => EventKind::NoteOn { key: key.as_int(), vel: vel.as_int() },
        TrackEventKind::Midi { message: MidiMessage::NoteOff { key, .. }, .. } => EventKind::NoteOff { key: key.as_int() },
        TrackEventKind::Meta(MetaMessage::TrackName(name)) => EventKind::TrackName(name.to_vec()),
        TrackEventKind::Meta(MetaMessage::Tempo(t)) => EventKind::Tempo(t.as_int()),
        TrackEventKind::Meta(MetaMessage::TimeSignature(n, d, _, _)) => EventKind::TimeSignature(n, d),
        _ => EventKind::Other,
    };
    TimedEvent { delta: ev.delta.as_int(), kind }
}

/// `String::from_utf8_lossy`: the text of a byte string. Bytes that are UTF-8
/// are kept as they are; the others are replaced.
#[verifier::external_body]
fn utf8_lossy(bytes: &[u8]) -> (r: String)
    ensures
        r@ == lossy_text(bytes@),
        valid_utf8(bytes@) ==> encode_utf8(r@) == bytes@,
{
    String::from_utf8_lossy(bytes).into_owned()
}

/// The text of a byte string that may or may not be UTF-8.
pub fn text_from_bytes(bytes: &Vec<u8>) -> (r: String)
    ensures
        r@ == lossy_text(bytes@),
        valid_utf8(bytes@) ==> encode_utf8(r@) == bytes@,
{
    utf8_lossy(bytes.as_slice())
}

/// Whether the four bytes of `b` at `at` are these.
fn has_id(b: &[u8], at: usize, w: u8, x: u8, y: u8, z: u8) -> (r: bool)
    requires
        at <= b.len(),
    ensures
        r == id_at(b@, at as int, w, x, y, z),
{
    b.len() - at >= 4 && b[at] == w && b[at + 1] == x && b[at + 2] == y && b[at + 3] == z
}

/// The end of `n` bytes from `from`, which stop at `end`.
fn stop_before(from: usize, n: u64, end: usize) -> (r: usize)
    requires
        from <= end,
    ensures
        r == stop_at(from as int, n as int, end as int),
        from <= r <= end,
{
    if n < (end - from) as u64 {
        from + n as usize
    } else {
        end
    }
}

/// How the header chunk with the data `from .. to` reads.
fn read_header(b: &[u8], from: usize, to: usize) -> (r: HeaderRead)
    requires
        from <= to <= b.len(),
    ensures
        r == header_read(b@, from as int, to as int),
{
    if to - from < 6 || b[from] != 0 || b[from + 1] > 2 {
        return HeaderRead::Broken;
    }
    let rate = b[from + 4];
    if rate < 0x80 || rate == 232 || rate == 231 || rate == 227 || rate == 226 {
        HeaderRead::Good
    } else if rate == 0x80 {
        HeaderRead::Odd
    } else {
        HeaderRead::Broken
    }
}

/// The place of the first header chunk in `from .. end` that gives -128 frames
/// per second, and whether a header stands before it.
fn scan_chunks(b: &[u8], from: usize, end: usize) -> (r: Option<(usize, bool)>)
    requires
        from <= end <= b.len(),
    ensures
        odd_header_in(b@, from as int, end as int, false) == match r {
            Some(p) => Some((p.0 as int, p.1)),
            None => None,
        },
        r matches Some(p) ==> from <= p.0 < end,
{
    let mut at: usize = from;
    let mut seen = false;
    while end - at >= 8
        invariant
            from <= at <= end <= b.len(),
            odd_header_in(b@, from as int, end as int, false) == odd_header_in(
                b@,
                at as int,
                end as int,
                seen,
            ),
        decreases end - at,
    {
        let n: u64 = ((b[at + 4] as u64 * 256 + b[at + 5] as u64) * 256 + b[at + 6] as u64) * 256
            + b[at + 7] as u64;
        let stop = stop_before(at + 8, n, end);
        if has_id(b, at, 0x4d, 0x54, 0x68, 0x64) {
            match read_header(b, at + 8, stop) {
                HeaderRead::Good => {
                    seen = true;
                },
                HeaderRead::Broken => {
                    return None;
                },
                HeaderRead::Odd => {
                    return Some((at, seen));
                },
            }
        } else if has_id(b, at, 0x4d, 0x54, 0x72, 0x6b) && !seen {
            return None;
        }
        at = stop;
    }
    None
}

/// Where the data of the first `data` chunk in `from .. end` starts and ends.
fn find_riff_data(b: &[u8], from: usize, end: usize) -> (r: Option<(usize, usize)>)
    requires
        from <= end <= b.len(),
    ensures
        riff_data_in(b@, from as int, end as int) == match r {
            Some(p) => Some((p.0 as int, p.1 as int)),
            None => None,
        },
        r matches Some(p) ==> from <= p.0 <= p.1 <= end,
{
    let mut at: usize = from;
    while end - at >= 8
        invariant
            from <= at <= end <= b.len(),
            riff_data_in(b@, from as int, end as int) == riff_data_in(b@, at as int, end as int),
        decreases end - at,
    {
        let n: u64 = ((b[at + 7] as u64 * 256 + b[at + 6] as u64) * 256 + b[at + 5] as u64) * 256
            + b[at + 4] as u64;
        let stop = stop_before(at + 8, n, end);
        if has_id(b, at, 0x64, 0x61, 0x74, 0x61) {
            return Some((at + 8, stop));
        }
        at = if n % 2 == 1 && stop < end {
            stop + 1
        } else {
            stop
        };
    }
    None
}

/// Where the chunk list of a file starts and ends.
fn find_chunk_list(b: &[u8]) -> (r: Option<(usize, usize)>)
    ensures
        chunk_list(b@) == match r {
            Some(p) => Some((p.0 as int, p.1 as int)),
            None => None,
        },
        r matches Some(p) ==> p.0 <= p.1 <= b.len(),
{
    if has_id(b, 0, 0x4d, 0x54, 0x68, 0x64) {
        return Some((0, b.len()));
    }
    if !has_id(b, 0, 0x52, 0x49, 0x46, 0x46) || b.len() < 8 {
        return None;
    }
    let n: u64 = ((b[7] as u64 * 256 + b[6] as u64) * 256 + b[5] as u64) * 256 + b[4] as u64;
    let end = stop_before(8, n, b.len());
    if end >= 12 && has_id(b, 8, 0x52, 0x4d, 0x49, 0x44) {
        find_riff_data(b, 12, end)
    } else {
        None
    }
}

/// The place of the first header chunk that gives -128 frames per second, and
/// whether a header stands before it.
fn find_odd_header(b: &[u8]) -> (r: Option<(usize, bool)>)
    ensures
        odd_header(b@) == match r {
            Some(p) => Some((p.0 as int, p.1)),
            None => None,
        },
        r matches Some(p) ==> p.0 < b.len(),
{
    match find_chunk_list(b) {
        Some((start, end)) => scan_chunks(b, start, end),
        None => None,
    }
}

proof fn lemma_odd_header_bounds(b: Seq<u8>, at: int, end: int, seen: bool)
    ensures
        odd_header_in(b, at, end, seen) matches Some(p) ==> at <= p.0 && p.0 + 14 <= end <= b.len()
            && 0 <= at && (if p.0 == at {
            p.1 == seen
        } else {
            at + 8 <= p.0
        }),
    decreases end - at,
{
    if 0 <= at && at + 8 <= end <= b.len() {
        let stop = stop_at(at + 8, length_at(b, at + 4), end);
        lemma_odd_header_bounds(b, stop, end, true);
        lemma_odd_header_bounds(b, stop, end, seen);
    }
}

proof fn lemma_cut_chunks(b: Seq<u8>, at: int, end: int, seen: bool, cut: int)
    requires
        odd_header_in(b, at, end, seen) matches Some(p) && p.0 == cut,
    ensures
        odd_header_in(b.take(cut), at, cut, seen) is None,
    decreases end - at,
{
    lemma_odd_header_bounds(b, at, end, seen);
    let c = b.take(cut);
    let stop = stop_at(at + 8, length_at(b, at + 4), end);
    if cut > at {
        let next = seen || header_id_at(b, at);
        lemma_odd_header_bounds(b, stop, end, next);
        lemma_cut_chunks(b, stop, end, next, cut);
        assert(stop <= cut);
        assert(at + 8 <= cut);
        assert(length_at(c, at + 4) == length_at(b, at + 4));
        assert(stop_at(at + 8, length_at(c, at + 4), cut) == stop);
        assert(header_id_at(c, at) == header_id_at(b, at));
        assert(track_id_at(c, at) == track_id_at(b, at));
        if header_id_at(b, at) {
            assert(header_read(c, at + 8, stop) == header_read(b, at + 8, stop));
        }
    }
}

proof fn lemma_riff_data_bounds(b: Seq<u8>, at: int, end: int)
    ensures
        riff_data_in(b, at, end) matches Some(p) ==> 0 <= at && at + 8 <= p.0 <= p.1 <= end
            <= b.len(),
    decreases end - at,
{
    if 0 <= at && at + 8 <= end <= b.len() {
        let stop = stop_at(at + 8, riff_length_at(b, at + 4), end);
        lemma_riff_data_bounds(b, stop, end);
        if stop < end {
            lemma_riff_data_bounds(b, stop + 1, end);
        }
    }
}

proof fn lemma_cut_riff(b: Seq<u8>, at: int, end: int, cut: int)
    requires
        riff_data_in(b, at, end) matches Some(p) && p.0 <= cut < p.1,
    ensures
        riff_data_in(b, at, end) matches Some(p) && riff_data_in(b.take(cut), at, cut) == Some(
            (p.0, cut),
        ),
    decreases end - at,
{
    lemma_riff_data_bounds(b, at, end);
    let c = b.take(cut);
    let n = riff_length_at(b, at + 4);
    let stop = stop_at(at + 8, n, end);
    assert(riff_length_at(c, at + 4) == n);
    assert(data_id_at(c, at) == data_id_at(b, at));
    if !data_id_at(b, at) {
        let next = if n % 2 == 1 && stop < end {
            stop + 1
        } else {
            stop
        };
        lemma_riff_data_bounds(b, next, end);
        lemma_cut_riff(b, next, end, cut);
    }
}

/// What stands before a second header that cannot be read can be read.
proof fn lemma_readable_part(b: Seq<u8>)
    requires
        !impossible_frame_rate(b),
    ensures
        frame_rate_readable(readable_part(b)),
{
    if let Some(p) = odd_header(b) {
        let cut = p.0;
        let (start, end) = chunk_list(b)->0;
        lemma_odd_header_bounds(b, start, end, false);
        let c = b.take(cut);
        assert(cut > start);
        lemma_cut_chunks(b, start, end, false, cut);
        if header_id_at(b, 0) {
            assert(cut >= 8);
            assert(header_id_at(c, 0));
            assert(chunk_list(c) == Some((0int, cut)));
        } else {
            let whole = stop_at(8, riff_length_at(b, 4), b.len() as int);
            lemma_riff_data_bounds(b, 12, whole);
            lemma_cut_riff(b, 12, whole, cut);
            assert(riff_id_at(c, 0) && !header_id_at(c, 0));
            assert(riff_length_at(c, 4) == riff_length_at(b, 4));
            assert(stop_at(8, riff_length_at(c, 4), cut) == cut);
            assert(rmid_id_at(c, 8));
            assert(chunk_list(c) == Some((start, cut)));
        }
    }
}

/// Why a file could not be decoded.
#[derive(Debug)]
pub enum ReadError {
    /// Its header gives a frame rate that does not exist.
    FrameRate,
    /// The decoder refused it, for the reason given.
    Refused(String),
}

/// `r` is what reading the bytes of a file gives.
pub open spec fn is_reading(bytes: Seq<u8>, r: Result<MidiFile, ReadError>) -> bool {
    if impossible_frame_rate(bytes) {
        r == Err::<MidiFile, ReadError>(ReadError::FrameRate)
    } else {
        match smf_outcome(readable_part(bytes)) {
            Ok(file) => r is Ok && r->Ok_0@ == file,
            Err(text) => r is Err && r->Err_0 is Refused && r->Err_0->Refused_0@ == text,
        }
    }
}

/// Copies one track of a decoded file.
fn copy_track(smf: &midly::Smf, track: usize) -> (r: Vec<TimedEvent>)
    requires
        track < smf_tracks(smf).len(),
    ensures
        event_views(r@) == smf_tracks(smf)[track as int],
        track_in_seven_bits(smf_tracks(smf)[track as int]),
{
    let mut r: Vec<TimedEvent> = Vec::new();
    let n = event_count(smf, track);
    for i in 0..n
        invariant
            track < smf_tracks(smf).len(),
            n == smf_tracks(smf)[track as int].len(),
            r.len() == i,
            forall|j: int|
                0 <= j < i ==> (#[trigger] r[j])@ == smf_tracks(smf)[track as int][j]
                    && in_seven_bits(r[j]@.kind),
    {
        r.push(event_of(smf, track, i));
    }
    let ghost events = smf_tracks(smf)[track as int];
    assert(event_views(r@) =~= events);
    assert forall|j: int| 0 <= j < events.len() implies in_seven_bits(
        (#[trigger] events[j]).kind,
    ) by {
        assert(events[j] == r[j]@);
    }
    r
}

/// Decodes the bytes of a Standard MIDI File.
pub fn read_midi(bytes: &[u8]) -> (r: Result<MidiFile, ReadError>)
    ensures
        is_reading(bytes@, r),
        r matches Ok(file) ==> forall|i: int|
            0 <= i < file@.tracks.len() ==> track_in_seven_bits(#[trigger] file@.tracks[i]),
{
    let part = match find_odd_header(bytes) {
        None => bytes,
        Some((_, false)) => {
            return Err(ReadError::FrameRate);
        },
        Some((at, true)) => {
            assert(bytes@.subrange(0, at as int) =~= bytes@.take(at as int));
            slice_subrange(bytes, 0, at)
        },
    };
    proof {
        lemma_readable_part(bytes@);
    }
    match smf_parse(part) {
        Err(text) => Err(ReadError::Refused(text)),
        Ok(smf) => {
            let mut tracks: Vec<Vec<TimedEvent>> = Vec::new();
            let n = track_count(&smf);
            for i in 0..n
                invariant
                    n == smf_tracks(&smf).len(),
                    tracks.len() == i,
                    forall|j: int|
                        0 <= j < i ==> event_views((#[trigger] tracks[j])@) == smf_tracks(&smf)[j],
                    forall|j: int|
                        0 <= j < i ==> track_in_seven_bits(#[trigger] smf_tracks(&smf)[j]),
            {
                tracks.push(copy_track(&smf, i));
            }
            assert(track_views(tracks@) =~= smf_tracks(&smf));
            assert forall|i: int| 0 <= i < n implies track_in_seven_bits(
                #[trigger] track_views(tracks@)[i],
            ) by {
                assert(event_views(tracks[i]@) == smf_tracks(&smf)[i]);
            }
            Ok(MidiFile { timing: timing_of(&smf), tracks })
        },
    }
}

} // verus!
