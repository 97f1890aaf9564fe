//! What holds of MIDI import: which tempo, time signature, names and notes a file
//! gives, and what clips they become.
use vstd::prelude::*;

#[allow(unused_imports)]
use crate::grid::{clamped_tempo, max_units, nearest, Tempo, UNITS_PER_STEP};
#[allow(unused_imports)]
use crate::midi::{
    a_track_has_a_note_per_strike, blank_clip, clip_names_of, clip_note, clips_of, file_signature,
    file_tempo, first_signature, first_tempo, fitted, is_file_import, is_import, is_strike,
    is_track_import, last_end, lemma_last_end, lemma_next_touch, lemma_next_touch_is,
    lemma_plus_notes, next_touch, note_of_strike, plus_notes, plus_tracks, selected_notes,
    selected_tracks, sounds, strike_notes, tick_of, touches, track_clip,
    track_clip_holds_the_track, track_name, track_notes, units_of_ticks, ImportData, ImportError,
    ImportedTrack, TickNote, HALF_STEP, UNITS_PER_QUARTER,
};
#[allow(unused_imports)]
use crate::pattern::{end_of, ids_unique, NoteView, PatternView};
#[allow(unused_imports)]
use crate::smf::{
    chunk_list, header_id_at, impossible_frame_rate, length_at, lossy_text, odd_header_in,
    readable_part, riff_length_at, stop_at, EventView, MidiView, TimeDivision, TimedView,
};
#[allow(unused_imports)]
use crate::sort::stable_sort_is_permutation;
#[allow(unused_imports)]
use crate::text::{decimal, is_space, trim_end, trim_start, trimmed_text};
#[allow(unused_imports)]
use crate::timing::a_clamped_tempo_is_in_range;

verus! {

// ---------------------------------------------------------------------------
// The file
// ---------------------------------------------------------------------------

/// A decoded file can be imported if and only if it counts ticks per quarter note,
/// at least one, and has a track.
pub proof fn files_with_quarters_and_tracks_are_imported(
    file: MidiView,
    r: Result<ImportData, ImportError>,
)
    requires
        is_import(file, r),
    ensures
        r is Ok <==> (file.timing matches TimeDivision::Metrical(ppq) && ppq > 0
            && file.tracks.len() > 0),
        r matches Ok(d) ==> file.timing == TimeDivision::Metrical(d.ppq as u16) && d.ppq <= 0xffff
            && d.tracks@.len() == file.tracks.len() && forall|i: int|
            0 <= i < d.tracks@.len() ==> (#[trigger] d.tracks@[i]).selected,
        file.timing is Timecode ==> r == Err::<ImportData, ImportError>(
            ImportError::SmpteTimeDivision,
        ),
        file.timing == TimeDivision::Metrical(0) ==> r == Err::<ImportData, ImportError>(
            ImportError::ZeroTimeDivision,
        ),
{
    if let Ok(d) = r {
        assert forall|i: int|
            0 <= i < d.tracks@.len() implies (#[trigger] d.tracks@[i]).selected by {
            assert(is_track_import(d.tracks[i], file.tracks[i], i));
        }
    }
}

/// The event sets a tempo.
pub open spec fn sets_tempo(ev: TimedView) -> bool {
    ev.kind matches EventView::Tempo(micros) && micros > 0
}

/// The event sets a time signature.
pub open spec fn sets_signature(ev: TimedView) -> bool {
    ev.kind is TimeSignature
}

proof fn lemma_first_tempo(events: Seq<TimedView>, j: int)
    requires
        0 <= j <= events.len(),
        j < events.len() ==> sets_tempo(events[j]),
        forall|k: int| 0 <= k < j ==> !sets_tempo(#[trigger] events[k]),
    ensures
        j == events.len() ==> first_tempo(events) is None,
        j < events.len() ==> (events[j].kind matches EventView::Tempo(micros) && first_tempo(events)
            == Some(Tempo { num: 60_000_000, den: micros })),
    decreases events.len(),
{
    if events.len() > 0 {
        let rest = events.drop_last();
        if j < events.len() - 1 {
            assert(rest[j] == events[j]);
            lemma_first_tempo(rest, j);
        } else {
            lemma_first_tempo(rest, rest.len() as int);
            assert(events.last() == events[events.len() - 1]);
        }
    }
}

proof fn lemma_first_signature(events: Seq<TimedView>, j: int)
    requires
        0 <= j <= events.len(),
        j < events.len() ==> sets_signature(events[j]),
        forall|k: int| 0 <= k < j ==> !sets_signature(#[trigger] events[k]),
    ensures
        j == events.len() ==> first_signature(events) is None,
        j < events.len() ==> (events[j].kind matches EventView::TimeSignature(n, d)
            && first_signature(events) == Some((n, d))),
    decreases events.len(),
{
    if events.len() > 0 {
        let rest = events.drop_last();
        if j < events.len() - 1 {
            assert(rest[j] == events[j]);
            lemma_first_signature(rest, j);
        } else {
            lemma_first_signature(rest, rest.len() as int);
            assert(events.last() == events[events.len() - 1]);
        }
    }
}

proof fn lemma_file_tempo(tracks: Seq<Seq<TimedView>>, i: int)
    requires
        0 <= i <= tracks.len(),
        i < tracks.len() ==> first_tempo(tracks[i]) is Some,
        forall|k: int| 0 <= k < i ==> first_tempo(#[trigger] tracks[k]) is None,
    ensures
        file_tempo(tracks) == if i < tracks.len() {
            first_tempo(tracks[i])
        } else {
            None
        },
    decreases tracks.len(),
{
    if tracks.len() > 0 {
        let rest = tracks.drop_last();
        if i < tracks.len() - 1 {
            assert(rest[i] == tracks[i]);
            lemma_file_tempo(rest, i);
        } else {
            lemma_file_tempo(rest, rest.len() as int);
            assert(tracks.last() == tracks[tracks.len() - 1]);
        }
    }
}

proof fn lemma_file_signature(tracks: Seq<Seq<TimedView>>, i: int)
    requires
        0 <= i <= tracks.len(),
        i < tracks.len() ==> first_signature(tracks[i]) is Some,
        forall|k: int| 0 <= k < i ==> first_signature(#[trigger] tracks[k]) is None,
    ensures
        file_signature(tracks) == if i < tracks.len() {
            first_signature(tracks[i])
        } else {
            None
        },
    decreases tracks.len(),
{
    if tracks.len() > 0 {
        let rest = tracks.drop_last();
        if i < tracks.len() - 1 {
            assert(rest[i] == tracks[i]);
            lemma_file_signature(rest, i);
        } else {
            lemma_file_signature(rest, rest.len() as int);
            assert(tracks.last() == tracks[tracks.len() - 1]);
        }
    }
}

/// The first tempo of the file, in track order, wins: it is `60_000_000 / micros`
/// beats per minute, kept between 40 and 300. The tempo of a conductor track
/// counts for the whole file.
pub proof fn the_first_tempo_of_the_file_wins(
    d: ImportData,
    tracks: Seq<Seq<TimedView>>,
    ppq: u16,
    i: int,
    j: int,
    micros: u32,
)
    requires
        is_file_import(d, tracks, ppq),
        0 <= i < tracks.len(),
        0 <= j < tracks[i].len(),
        tracks[i][j].kind == EventView::Tempo(micros),
        micros > 0,
        forall|k: int| 0 <= k < j ==> !sets_tempo(#[trigger] tracks[i][k]),
        forall|h: int, k: int|
            0 <= h < i && 0 <= k < tracks[h].len() ==> !sets_tempo(#[trigger] tracks[h][k]),
    ensures
        d.tempo.den > 0,
        40 * micros <= 60_000_000 <= 300 * micros ==> d.tempo.num * micros == 60_000_000
            * d.tempo.den,
        60_000_000 < 40 * micros ==> d.tempo.num == 40 * d.tempo.den,
        60_000_000 > 300 * micros ==> d.tempo.num == 300 * d.tempo.den,
{
    lemma_first_tempo(tracks[i], j);
    assert forall|h: int| 0 <= h < i implies first_tempo(#[trigger] tracks[h]) is None by {
        assert forall|k: int| 0 <= k < tracks[h].len() implies !sets_tempo(
            #[trigger] tracks[h][k],
        ) by {}
        lemma_first_tempo(tracks[h], tracks[h].len() as int);
    }
    lemma_file_tempo(tracks, i);
    let t = Tempo { num: 60_000_000, den: micros };
    a_clamped_tempo_is_in_range(t, 40, 300);
    assert(d.tempo == clamped_tempo(t, 40, 300));
}

/// A file that sets no tempo has 120 beats per minute.
pub proof fn a_file_without_tempo_has_120_beats(
    d: ImportData,
    tracks: Seq<Seq<TimedView>>,
    ppq: u16,
)
    requires
        is_file_import(d, tracks, ppq),
        forall|h: int, k: int|
            0 <= h < tracks.len() && 0 <= k < tracks[h].len() ==> !sets_tempo(
                #[trigger] tracks[h][k],
            ),
    ensures
        d.tempo.den > 0,
        d.tempo.num == 120 * d.tempo.den,
{
    assert forall|h: int| 0 <= h < tracks.len() implies first_tempo(
        #[trigger] tracks[h],
    ) is None by {
        assert forall|k: int| 0 <= k < tracks[h].len() implies !sets_tempo(
            #[trigger] tracks[h][k],
        ) by {}
        lemma_first_tempo(tracks[h], tracks[h].len() as int);
    }
    lemma_file_tempo(tracks, tracks.len() as int);
    let t = Tempo { num: 120, den: 1 };
    a_clamped_tempo_is_in_range(t, 40, 300);
    assert(d.tempo == clamped_tempo(t, 40, 300));
}

/// The first time signature of the file, in track order, wins. Its beat unit is a
/// power of two, kept between 2 and 16.
pub proof fn the_first_signature_of_the_file_wins(
    d: ImportData,
    tracks: Seq<Seq<TimedView>>,
    ppq: u16,
    i: int,
    j: int,
    nn: u8,
    dd: u8,
)
    requires
        is_file_import(d, tracks, ppq),
        0 <= i < tracks.len(),
        0 <= j < tracks[i].len(),
        tracks[i][j].kind == EventView::TimeSignature(nn, dd),
        forall|k: int| 0 <= k < j ==> !sets_signature(#[trigger] tracks[i][k]),
        forall|h: int, k: int|
            0 <= h < i && 0 <= k < tracks[h].len() ==> !sets_signature(#[trigger] tracks[h][k]),
    ensures
        nn >= 1 ==> d.beats_per_bar == nn,
        nn == 0 ==> d.beats_per_bar == 1,
        dd <= 1 ==> d.beat_unit == 2,
        1 <= dd <= 4 ==> d.beat_unit == vstd::arithmetic::power2::pow2(dd as nat),
        dd >= 4 ==> d.beat_unit == 16,
{
    lemma_first_signature(tracks[i], j);
    assert forall|h: int| 0 <= h < i implies first_signature(#[trigger] tracks[h]) is None by {
        assert forall|k: int| 0 <= k < tracks[h].len() implies !sets_signature(
            #[trigger] tracks[h][k],
        ) by {}
        lemma_first_signature(tracks[h], tracks[h].len() as int);
    }
    lemma_file_signature(tracks, i);
    vstd::arithmetic::power2::lemma2_to64();
}

/// A file that sets no time signature is in 4/4.
pub proof fn a_file_without_signature_is_in_four_four(
    d: ImportData,
    tracks: Seq<Seq<TimedView>>,
    ppq: u16,
)
    requires
        is_file_import(d, tracks, ppq),
        forall|h: int, k: int|
            0 <= h < tracks.len() && 0 <= k < tracks[h].len() ==> !sets_signature(
                #[trigger] tracks[h][k],
            ),
    ensures
        d.beats_per_bar == 4,
        d.beat_unit == 4,
{
    assert forall|h: int| 0 <= h < tracks.len() implies first_signature(
        #[trigger] tracks[h],
    ) is None by {
        assert forall|k: int| 0 <= k < tracks[h].len() implies !sets_signature(
            #[trigger] tracks[h][k],
        ) by {}
        lemma_first_signature(tracks[h], tracks[h].len() as int);
    }
    lemma_file_signature(tracks, tracks.len() as int);
}

/// Why a file cannot be imported is said in words; those of the decoder are kept.
pub proof fn import_errors_have_words(text: String)
    ensures
        ImportError::InvalidFile(text).words() == "invalid MIDI file: "@ + text@,
        ImportError::InvalidFrameRate.words()
            == "invalid MIDI file: invalid midi: invalid midi header"@,
        ImportError::SmpteTimeDivision.words() == "SMPTE time division is not supported"@,
        ImportError::ZeroTimeDivision.words() == "time division is zero"@,
        ImportError::NoTracks.words() == "no tracks found in the file"@,
{
}

/// A file whose header counts ticks per quarter note, or gives a frame rate that
/// exists, does not have an impossible one. One that gives -128 frames per second in
/// an otherwise good header has.
pub proof fn only_one_frame_rate_is_impossible(b: Seq<u8>)
    requires
        b.len() >= 14,
        b.take(4) == seq![0x4du8, 0x54, 0x68, 0x64],
        b[4] == 0 && b[5] == 0 && b[6] == 0 && b[7] >= 6,
    ensures
        b[12] != 128 ==> !impossible_frame_rate(b),
        b[12] == 128 && b[8] == 0 && b[9] <= 2 ==> impossible_frame_rate(b),
{
    assert(b.take(4)[0] == 0x4d && b.take(4)[1] == 0x54 && b.take(4)[2] == 0x68 && b.take(4)[3]
        == 0x64);
    assert(header_id_at(b, 0));
    let end = b.len() as int;
    let stop = stop_at(8, length_at(b, 4), end);
    assert(stop >= 14);
    if b[12] != 128 {
        lemma_seen(b, stop, end);
    }
}

/// In a container the file stands in the `data` chunk: its header decides there as it
/// does in a plain file. Lengths in a container start with their lowest byte, and what
/// stands behind the end of the container or of the chunk is not looked at.
pub proof fn a_contained_file_is_found(b: Seq<u8>, n: int)
    requires
        b.len() >= 34,
        b.take(4) == seq![0x52u8, 0x49, 0x46, 0x46],
        b.subrange(8, 12) == seq![0x52u8, 0x4d, 0x49, 0x44],
        b.subrange(12, 16) == seq![0x64u8, 0x61, 0x74, 0x61],
        b.subrange(20, 24) == seq![0x4du8, 0x54, 0x68, 0x64],
        26 <= n < 256,
        b[4] == n && b[5] == 0 && b[6] == 0 && b[7] == 0,
        b[16] >= 14,
        b[24] == 0 && b[25] == 0 && b[26] == 0 && b[27] >= 6,
    ensures
        b[32] != 128 ==> !impossible_frame_rate(b),
        b[32] == 128 && b[28] == 0 && b[29] <= 2 ==> impossible_frame_rate(b),
        b[32] < 128 && n == 26 ==> readable_part(b) == b,
        b[32] < 128 && b[16] == 14 && b[17] == 0 && b[18] == 0 && b[19] == 0 ==> readable_part(b)
            == b,
{
    assert(b.take(4)[0] == 0x52 && b.take(4)[1] == 0x49 && b.take(4)[2] == 0x46 && b.take(4)[3]
        == 0x46);
    assert(b.subrange(8, 12)[0] == 0x52 && b.subrange(8, 12)[1] == 0x4d && b.subrange(8, 12)[2]
        == 0x49 && b.subrange(8, 12)[3] == 0x44);
    assert(b.subrange(12, 16)[0] == 0x64 && b.subrange(12, 16)[1] == 0x61 && b.subrange(12, 16)[2]
        == 0x74 && b.subrange(12, 16)[3] == 0x61);
    assert(b.subrange(20, 24)[0] == 0x4d && b.subrange(20, 24)[1] == 0x54 && b.subrange(20, 24)[2]
        == 0x68 && b.subrange(20, 24)[3] == 0x64);
    let whole = stop_at(8, riff_length_at(b, 4), b.len() as int);
    assert(whole >= 34);
    let end = stop_at(20, riff_length_at(b, 16), whole);
    assert(end >= 34);
    assert(chunk_list(b) == Some((20int, end)));
    let stop = stop_at(28, length_at(b, 24), end);
    assert(stop >= 34);
    if b[32] != 128 {
        lemma_seen(b, stop, end);
    }
}

/// What stands before a second header that gives -128 frames per second is read, and
/// that header and all behind it is not.
pub proof fn a_second_header_can_end_a_file(b: Seq<u8>)
    requires
        b.len() >= 28,
        b.take(4) == seq![0x4du8, 0x54, 0x68, 0x64],
        b[4] == 0 && b[5] == 0 && b[6] == 0 && b[7] == 6,
        b[8] == 0 && b[9] <= 2 && b[12] < 128,
        b.subrange(14, 18) == seq![0x4du8, 0x54, 0x68, 0x64],
        b[18] == 0 && b[19] == 0 && b[20] == 0 && b[21] >= 6,
        b[22] == 0 && b[23] <= 2 && b[26] == 128,
    ensures
        !impossible_frame_rate(b),
        readable_part(b) == b.take(14),
{
    assert(b.take(4)[0] == 0x4d && b.take(4)[1] == 0x54 && b.take(4)[2] == 0x68 && b.take(4)[3]
        == 0x64);
    assert(b.subrange(14, 18)[0] == 0x4d && b.subrange(14, 18)[1] == 0x54 && b.subrange(14, 18)[2]
        == 0x68 && b.subrange(14, 18)[3] == 0x64);
    assert(header_id_at(b, 0) && header_id_at(b, 14));
    let end = b.len() as int;
    assert(stop_at(8, length_at(b, 4), end) == 14);
    assert(stop_at(22, length_at(b, 18), end) >= 28);
    assert(odd_header_in(b, 14, end, true) == Some((14int, true)));
}

proof fn lemma_seen(b: Seq<u8>, at: int, end: int)
    ensures
        odd_header_in(b, at, end, true) matches Some(p) ==> p.1,
    decreases end - at,
{
    if 0 <= at && at + 8 <= end <= b.len() {
        lemma_seen(b, stop_at(at + 8, length_at(b, at + 4), end), end);
    }
}

proof fn lemma_odd_is_in(b: Seq<u8>, at: int, end: int, seen: bool)
    ensures
        odd_header_in(b, at, end, seen) matches Some(p) ==> 0 <= p.0 && p.0 + 14 <= end
            <= b.len() && b[p.0 + 12] == 128,
    decreases end - at,
{
    if 0 <= at && at + 8 <= end <= b.len() {
        lemma_odd_is_in(b, stop_at(at + 8, length_at(b, at + 4), end), end, true);
        lemma_odd_is_in(b, stop_at(at + 8, length_at(b, at + 4), end), end, seen);
    }
}

/// A file is read from its start, and as a whole where no byte in it is 128. What is
/// left out starts with a header that gives -128 frames per second.
pub proof fn files_are_read_from_their_start(b: Seq<u8>)
    ensures
        readable_part(b).len() <= b.len(),
        readable_part(b) == b.take(readable_part(b).len() as int),
        readable_part(b).len() < b.len() ==> readable_part(b).len() + 14 <= b.len()
            && b[readable_part(b).len() as int + 12] == 128,
        (forall|i: int| 0 <= i < b.len() ==> #[trigger] b[i] != 128) ==> readable_part(b) == b
            && !impossible_frame_rate(b),
{
    assert(b.take(b.len() as int) =~= b);
    if let Some((start, end)) = chunk_list(b) {
        lemma_odd_is_in(b, start, end, false);
    }
}

// ---------------------------------------------------------------------------
// Track names
// ---------------------------------------------------------------------------

proof fn lemma_trim_end(s: Seq<char>)
    ensures
        ({
            let t = trim_end(s);
            &&& t.len() <= s.len()
            &&& t == s.take(t.len() as int)
            &&& forall|k: int| t.len() <= k < s.len() ==> is_space(#[trigger] s[k])
            &&& t.len() > 0 ==> !is_space(t.last())
        }),
    decreases s.len(),
{
    if s.len() > 0 && is_space(s.last()) {
        let r = s.drop_last();
        lemma_trim_end(r);
        let t = trim_end(s);
        assert(t =~= s.take(t.len() as int));
        assert forall|k: int| t.len() <= k < s.len() implies is_space(#[trigger] s[k]) by {
            if k < r.len() {
                assert(r[k] == s[k]);
            }
        }
    } else {
        assert(s =~= s.take(s.len() as int));
    }
}

proof fn lemma_trim_start(s: Seq<char>)
    ensures
        ({
            let t = trim_start(s);
            let from = s.len() - t.len();
            &&& 0 <= from
            &&& t == s.skip(from)
            &&& forall|k: int| 0 <= k < from ==> is_space(#[trigger] s[k])
            &&& t.len() > 0 ==> !is_space(t[0])
        }),
    decreases s.len(),
{
    if s.len() > 0 && is_space(s[0]) {
        let r = s.drop_first();
        lemma_trim_start(r);
        let t = trim_start(s);
        let from = s.len() - t.len();
        assert(t =~= s.skip(from));
        assert forall|k: int| 0 <= k < from implies is_space(#[trigger] s[k]) by {
            if k > 0 {
                assert(r[k - 1] == s[k]);
            }
        }
    } else {
        assert(s =~= s.skip(0));
    }
}

/// A trimmed text is the part of the text from its first to its last character
/// that is not white space.
pub proof fn trimming_keeps_what_is_between(s: Seq<char>)
    ensures
        exists|from: int, to: int|
            {
                &&& 0 <= from <= to <= s.len()
                &&& trimmed_text(s) == #[trigger] s.subrange(from, to)
                &&& forall|k: int| 0 <= k < from || to <= k < s.len() ==> is_space(#[trigger] s[k])
                &&& from < to ==> !is_space(s[from]) && !is_space(s[to - 1])
            },
        forall|k: int| 0 <= k < s.len() && !is_space(#[trigger] s[k]) ==> trimmed_text(s).contains(
            s[k],
        ),
{
    let a = trim_end(s);
    let t = trim_start(a);
    lemma_trim_end(s);
    lemma_trim_start(a);
    let from = a.len() - t.len();
    let to = a.len() as int;
    assert(t =~= s.subrange(from, to));
    assert forall|k: int| 0 <= k < from || to <= k < s.len() implies is_space(#[trigger] s[k]) by {
        if k < from {
            assert(a[k] == s[k]);
        }
    }
    assert forall|k: int| 0 <= k < s.len() && !is_space(
        #[trigger] s[k],
    ) implies trimmed_text(s).contains(s[k]) by {
        assert(from <= k < to);
        assert(t[k - from] == s[k]);
    }
}

/// White space is what a text cannot be seen by: blanks of any width, tabs and line
/// ends, and no letter, digit or mark.
pub proof fn letters_are_not_white_space(c: char)
    ensures
        c == ' ' || c == '\t' || c == '\n' || c == '\r' ==> is_space(c),
        c == '\u{b}' || c == '\u{c}' || c == '\u{85}' || c == '\u{a0}' ==> is_space(c),
        c == '\u{1680}' || '\u{2000}' <= c <= '\u{200a}' || c == '\u{3000}' ==> is_space(c),
        c == '\u{2028}' || c == '\u{2029}' || c == '\u{202f}' || c == '\u{205f}' ==> is_space(c),
        '!' <= c <= '~' ==> !is_space(c),
        '\u{a1}' <= c <= '\u{167f}' ==> !is_space(c),
        '\u{3001}' <= c ==> !is_space(c),
{
}

proof fn lemma_track_name(events: Seq<TimedView>, index: int, j: int)
    requires
        0 <= j < events.len(),
        events[j].kind is TrackName,
        forall|k: int| j < k < events.len() ==> !((#[trigger] events[k]).kind is TrackName),
    ensures
        events[j].kind matches EventView::TrackName(bytes) && ({
            let t = trimmed_text(lossy_text(bytes));
            track_name(events, index) == if t.len() == 0 {
                "Track "@ + decimal((index + 1) as nat)
            } else {
                t
            }
        }),
    decreases events.len(),
{
    if j < events.len() - 1 {
        let rest = events.drop_last();
        assert(rest[j] == events[j]);
        assert(!(events[events.len() - 1].kind is TrackName));
        lemma_track_name(rest, index, j);
    }
}

proof fn lemma_no_track_name(events: Seq<TimedView>, index: int)
    requires
        forall|k: int| 0 <= k < events.len() ==> !((#[trigger] events[k]).kind is TrackName),
    ensures
        track_name(events, index) == "Track "@ + decimal((index + 1) as nat),
    decreases events.len(),
{
    if events.len() > 0 {
        assert(!(events[events.len() - 1].kind is TrackName));
        lemma_no_track_name(events.drop_last(), index);
    }
}

/// A track is called by the last name that it gives, trimmed.
pub proof fn the_last_track_name_counts(
    t: ImportedTrack,
    events: Seq<TimedView>,
    index: int,
    j: int,
    bytes: Seq<u8>,
)
    requires
        is_track_import(t, events, index),
        0 <= j < events.len(),
        events[j].kind == EventView::TrackName(bytes),
        forall|k: int| j < k < events.len() ==> !((#[trigger] events[k]).kind is TrackName),
        exists|k: int|
            0 <= k < lossy_text(bytes).len() && !is_space(#[trigger] lossy_text(bytes)[k]),
    ensures
        t.name@ == trimmed_text(lossy_text(bytes)),
        t.name@.len() > 0,
{
    lemma_track_name(events, index, j);
    let s = lossy_text(bytes);
    trimming_keeps_what_is_between(s);
    let k = choose|k: int| 0 <= k < s.len() && !is_space(#[trigger] s[k]);
    assert(trimmed_text(s).contains(s[k]));
}

/// A track whose last name is blank is called by its number.
pub proof fn blank_track_names_are_replaced(
    t: ImportedTrack,
    events: Seq<TimedView>,
    index: int,
    j: int,
    bytes: Seq<u8>,
)
    requires
        is_track_import(t, events, index),
        0 <= j < events.len(),
        events[j].kind == EventView::TrackName(bytes),
        forall|k: int| j < k < events.len() ==> !((#[trigger] events[k]).kind is TrackName),
        forall|k: int|
            0 <= k < lossy_text(bytes).len() ==> is_space(#[trigger] lossy_text(bytes)[k]),
    ensures
        t.name@ == "Track "@ + decimal((index + 1) as nat),
{
    lemma_track_name(events, index, j);
    let s = lossy_text(bytes);
    trimming_keeps_what_is_between(s);
    let (from, to) = choose|from: int, to: int|
        {
            &&& 0 <= from <= to <= s.len()
            &&& trimmed_text(s) == #[trigger] s.subrange(from, to)
            &&& forall|k: int| 0 <= k < from || to <= k < s.len() ==> is_space(#[trigger] s[k])
            &&& from < to ==> !is_space(s[from]) && !is_space(s[to - 1])
        };
    if from < to {
        assert(is_space(s[from]));
    }
}

/// A track without a name is called by its number.
pub proof fn nameless_tracks_are_numbered(t: ImportedTrack, events: Seq<TimedView>, index: int)
    requires
        is_track_import(t, events, index),
        forall|k: int| 0 <= k < events.len() ==> !((#[trigger] events[k]).kind is TrackName),
    ensures
        t.name@ == "Track "@ + decimal((index + 1) as nat),
{
    lemma_no_track_name(events, index);
}

// ---------------------------------------------------------------------------
// The notes of a track
// ---------------------------------------------------------------------------

/// `ticks` are the times of the events: each its delta after the one before.
pub open spec fn are_times_of(ticks: Seq<u64>, events: Seq<TimedView>) -> bool {
    &&& ticks.len() == events.len()
    &&& forall|i: int|
        0 <= i < ticks.len() ==> #[trigger] ticks[i] == events[i].delta + (if i == 0 {
            0
        } else {
            ticks[i - 1] as int
        })
}

/// The event strikes or releases the key.
pub open spec fn is_about(ev: TimedView, key: u8) -> bool {
    ||| exists|vel: u8| ev.kind == (EventView::NoteOn { key, vel })
    ||| ev.kind == (EventView::NoteOff { key })
}

proof fn lemma_times(ticks: Seq<u64>, events: Seq<TimedView>, i: int)
    requires
        are_times_of(ticks, events),
        0 <= i < ticks.len(),
    ensures
        tick_of(events, i + 1) == ticks[i],
    decreases i,
{
    if i > 0 {
        lemma_times(ticks, events, i - 1);
        assert(ticks[i] == events[i].delta + ticks[i - 1]);
    } else {
        assert(ticks[0] == events[0].delta);
        assert(tick_of(events, 0) == 0);
    }
}

proof fn lemma_in_order(ticks: Seq<u64>, events: Seq<TimedView>, i: int, j: int)
    requires
        are_times_of(ticks, events),
        0 <= i <= j < ticks.len(),
    ensures
        ticks[i] <= ticks[j],
    decreases j,
{
    if i < j {
        lemma_in_order(ticks, events, i, j - 1);
        assert(ticks[j] == events[j].delta + ticks[j - 1]);
    }
}

proof fn lemma_strike_is_in(events: Seq<TimedView>, i: int, n: int)
    requires
        0 <= i < n <= events.len(),
        sounds(events, i),
    ensures
        strike_notes(events, n).contains(note_of_strike(events, i)),
    decreases n,
{
    let all = strike_notes(events, n);
    if i == n - 1 {
        assert(all.last() == note_of_strike(events, i));
        assert(all[all.len() - 1] == note_of_strike(events, i));
    } else {
        lemma_strike_is_in(events, i, n - 1);
        let rest = strike_notes(events, n - 1);
        let k = choose|k: int| 0 <= k < rest.len() && rest[k] == note_of_strike(events, i);
        assert(all[k] == rest[k]);
    }
}

proof fn lemma_is_of_strike(events: Seq<TimedView>, k: int, n: int) -> (i: int)
    requires
        0 <= n <= events.len(),
        0 <= k < strike_notes(events, n).len(),
    ensures
        0 <= i < n,
        sounds(events, i),
        strike_notes(events, n)[k] == note_of_strike(events, i),
    decreases n,
{
    if sounds(events, n - 1) && k == strike_notes(events, n).len() - 1 {
        n - 1
    } else {
        lemma_is_of_strike(events, k, n - 1)
    }
}

proof fn lemma_same_contents<A>(a: Seq<A>, b: Seq<A>, x: A)
    requires
        a.to_multiset() == b.to_multiset(),
        b.contains(x),
    ensures
        a.contains(x),
{
    broadcast use vstd::seq_lib::group_to_multiset_ensures;

    assert(b.to_multiset().contains(x));
    assert(a.to_multiset().contains(x));
}

/// A key that is struck and then released is one note of the track: it starts at
/// the strike, lasts to the release and is as loud as the strike, whose velocity
/// counts in 127ths of full level.
pub proof fn a_struck_and_released_key_is_a_note(
    t: ImportedTrack,
    events: Seq<TimedView>,
    index: int,
    ticks: Seq<u64>,
    i: int,
    j: int,
    key: u8,
    vel: u8,
)
    requires
        is_track_import(t, events, index),
        are_times_of(ticks, events),
        0 <= i < j < events.len(),
        events[i].kind == (EventView::NoteOn { key, vel }),
        vel > 0,
        events[j].kind == (EventView::NoteOff { key }) || events[j].kind == (EventView::NoteOn {
            key,
            vel: 0,
        }),
        forall|k: int| i < k < j ==> !is_about(#[trigger] events[k], key),
    ensures
        ticks[i] <= ticks[j],
        exists|n: TickNote| #[trigger]
            t.notes@.contains(n) && n.0 == ticks[i] && n.1 == key && n.2 * 127 == vel * 1_270_000
                && n.3 == ticks[j] - ticks[i],
{
    assert(touches(events[j].kind, key));
    assert forall|k: int| i + 1 <= k < j implies !touches((#[trigger] events[k]).kind, key) by {
        assert(!is_about(events[k], key));
        if let EventView::NoteOn { key: other, vel: v } = events[k].kind {
            if other == key {
                assert(events[k].kind == (EventView::NoteOn { key, vel: v }));
            }
        }
    }
    lemma_next_touch_is(events, key, i + 1, events.len() as int, j);
    lemma_times(ticks, events, i);
    lemma_times(ticks, events, j);
    lemma_in_order(ticks, events, i, j);
    let n = note_of_strike(events, i);
    lemma_strike_is_in(events, i, events.len() as int);
    a_track_has_a_note_per_strike(events);
    stable_sort_is_permutation(t.notes@, track_notes(events));
    lemma_same_contents(t.notes@, strike_notes(events, events.len() as int), n);
    assert(t.notes@.contains(n));
}

/// A key that is struck and never touched again is held to the end of the track.
pub proof fn a_held_key_lasts_to_the_end(
    t: ImportedTrack,
    events: Seq<TimedView>,
    index: int,
    ticks: Seq<u64>,
    i: int,
    key: u8,
    vel: u8,
)
    requires
        is_track_import(t, events, index),
        are_times_of(ticks, events),
        0 <= i < events.len(),
        events[i].kind == (EventView::NoteOn { key, vel }),
        vel > 0,
        forall|k: int| i < k < events.len() ==> !is_about(#[trigger] events[k], key),
    ensures
        ticks[i] <= ticks.last(),
        exists|n: TickNote| #[trigger]
            t.notes@.contains(n) && n.0 == ticks[i] && n.1 == key && n.2 * 127 == vel * 1_270_000
                && n.3 == ticks.last() - ticks[i],
{
    assert forall|k: int| i + 1 <= k < events.len() implies !touches(
        (#[trigger] events[k]).kind,
        key,
    ) by {
        assert(!is_about(events[k], key));
        if let EventView::NoteOn { key: other, vel: v } = events[k].kind {
            if other == key {
                assert(events[k].kind == (EventView::NoteOn { key, vel: v }));
            }
        }
    }
    lemma_next_touch_is(events, key, i + 1, events.len() as int, events.len() as int);
    lemma_times(ticks, events, i);
    lemma_times(ticks, events, events.len() - 1);
    lemma_in_order(ticks, events, i, events.len() - 1);
    let n = note_of_strike(events, i);
    lemma_strike_is_in(events, i, events.len() as int);
    a_track_has_a_note_per_strike(events);
    stable_sort_is_permutation(t.notes@, track_notes(events));
    lemma_same_contents(t.notes@, strike_notes(events, events.len() as int), n);
    assert(t.notes@.contains(n));
}

/// Every note of a track comes from a strike of its key, at its start, as loud.
pub proof fn notes_come_from_strikes(
    t: ImportedTrack,
    events: Seq<TimedView>,
    index: int,
    ticks: Seq<u64>,
    k: int,
)
    requires
        is_track_import(t, events, index),
        are_times_of(ticks, events),
        0 <= k < t.notes@.len(),
    ensures
        exists|i: int, vel: u8|
            0 <= i < events.len() && vel > 0 && #[trigger] events[i].kind == (
            #[trigger] note_on(t.notes@[k].1, vel)) && t.notes@[k].0 == ticks[i] && t.notes@[k].2
                * 127 == vel * 1_270_000,
{
    let struck = strike_notes(events, events.len() as int);
    a_track_has_a_note_per_strike(events);
    stable_sort_is_permutation(t.notes@, track_notes(events));
    assert(t.notes@.contains(t.notes@[k]));
    lemma_same_contents(struck, t.notes@, t.notes@[k]);
    let m = choose|m: int| 0 <= m < struck.len() && struck[m] == t.notes@[k];
    let i = lemma_is_of_strike(events, m, events.len() as int);
    lemma_times(ticks, events, i);
    if let EventView::NoteOn { key, vel } = events[i].kind {
        assert(events[i].kind == note_on(t.notes@[k].1, vel));
    }
}

/// A strike of `key`.
pub open spec fn note_on(key: u8, vel: u8) -> EventView {
    EventView::NoteOn { key, vel }
}

/// A strike of a key that is struck again before it is released is no note of
/// its own: a track has as many notes as strikes whose key is next released, or
/// not touched again.
pub proof fn a_track_has_as_many_notes_as_strikes_that_last(
    t: ImportedTrack,
    events: Seq<TimedView>,
    index: int,
)
    requires
        is_track_import(t, events, index),
    ensures
        t.notes@.len() == strikes_that_last(events, events.len() as int),
{
    broadcast use vstd::seq_lib::group_to_multiset_ensures;

    a_track_has_a_note_per_strike(events);
    stable_sort_is_permutation(t.notes@, track_notes(events));
    let struck = strike_notes(events, events.len() as int);
    assert(t.notes@.len() == t.notes@.to_multiset().len());
    assert(struck.len() == struck.to_multiset().len());
    lemma_count_strikes(events, events.len() as int);
}

/// Event `i` strikes a key that is not struck again before it is released.
pub open spec fn strike_lasts(events: Seq<TimedView>, i: int) -> bool {
    exists|key: u8, vel: u8| #[trigger]
        note_on(key, vel) == events[i].kind && vel > 0 && forall|j: int, v: u8|
            i < j < events.len() && #[trigger] note_on(key, v) == (#[trigger] events[j]).kind && v
                > 0 ==> exists|k: int| i < k < j && is_about(#[trigger] events[k], key)
}

/// How many of the first `n` events strike a key that is not struck again before
/// it is released.
pub open spec fn strikes_that_last(events: Seq<TimedView>, n: int) -> nat
    decreases n,
{
    if n <= 0 {
        0
    } else {
        strikes_that_last(events, n - 1) + if strike_lasts(events, n - 1) {
            1nat
        } else {
            0
        }
    }
}

proof fn lemma_strike_lasts(events: Seq<TimedView>, i: int)
    requires
        0 <= i < events.len(),
    ensures
        sounds(events, i) == strike_lasts(events, i),
{
    let n = events.len() as int;
    if let EventView::NoteOn { key, vel } = events[i].kind {
        assert(note_on(key, vel) == events[i].kind);
        let m = next_touch(events, key, i + 1, n);
        lemma_next_touch(events, key, i + 1, n);
        if sounds(events, i) {
            assert forall|j: int, v: u8|
                i < j < events.len() && #[trigger] note_on(key, v) == (#[trigger] events[j]).kind
                    && v > 0 implies exists|k: int|
                i < k < j && is_about(#[trigger] events[k], key) by {
                assert(touches(events[j].kind, key));
                assert(m <= j);
                assert(m != j);
                lemma_about(events[m], key);
            }
        } else if vel > 0 {
            assert(m < n && is_strike(events[m].kind));
            if let EventView::NoteOn { key: k2, vel: v } = events[m].kind {
                assert(note_on(key, v) == events[m].kind);
                if strike_lasts(events, i) {
                    let (key2, vel2) = choose|key2: u8, vel2: u8| #[trigger]
                        note_on(key2, vel2) == events[i].kind && vel2 > 0 && forall|j: int, v: u8|
                            i < j < events.len() && #[trigger] note_on(key2, v) == (
                            #[trigger] events[j]).kind && v > 0 ==> exists|k: int|
                                i < k < j && is_about(#[trigger] events[k], key2);
                    assert(key2 == key);
                    let k = choose|k: int| i < k < m && is_about(#[trigger] events[k], key);
                    lemma_about(events[k], key);
                    assert(touches(events[k].kind, key));
                }
            }
        }
    }
}

proof fn lemma_about(ev: TimedView, key: u8)
    ensures
        is_about(ev, key) == touches(ev.kind, key),
{
    if let EventView::NoteOn { key: other, vel } = ev.kind {
        if other == key {
            assert(ev.kind == (EventView::NoteOn { key, vel }));
        }
    }
}

proof fn lemma_count_strikes(events: Seq<TimedView>, n: int)
    requires
        0 <= n <= events.len(),
    ensures
        strike_notes(events, n).len() == strikes_that_last(events, n),
    decreases n,
{
    if n > 0 {
        lemma_count_strikes(events, n - 1);
        lemma_strike_lasts(events, n - 1);
    }
}

// ---------------------------------------------------------------------------
// Clips
// ---------------------------------------------------------------------------

/// `units` is the grid position nearest to `ticks`, a quarter note being four
/// steps; a position beyond the end of the grid is at its end.
pub open spec fn is_grid_time(units: nat, ticks: u64, ppq: u32) -> bool {
    &&& ticks * (4 * UNITS_PER_STEP) <= max_units() * ppq ==> -(ppq as int) <= 2 * (units * ppq
        - ticks * (4 * UNITS_PER_STEP)) <= ppq
    &&& ticks * (4 * UNITS_PER_STEP) > max_units() * ppq ==> units == max_units()
}

/// `note` is what a note of a track becomes: MIDI key 48 is degree 0, and a note
/// is never shorter than half a step.
pub open spec fn is_imported_note(note: NoteView, n: TickNote, ppq: u32) -> bool {
    &&& note.pitch_index + 48 == n.1
    &&& is_grid_time(note.start_step, n.0, ppq)
    &&& 2 * note.length_steps >= UNITS_PER_STEP
    &&& is_grid_time(note.length_steps, n.3, ppq) || 2 * note.length_steps == UNITS_PER_STEP
    &&& n.3 * 8 >= ppq ==> is_grid_time(note.length_steps, n.3, ppq)
    &&& n.3 * 8 <= ppq ==> 2 * note.length_steps == UNITS_PER_STEP
    &&& 0 <= n.2 <= 1_270_000 ==> note.velocity == n.2
    &&& n.2 < 0 ==> note.velocity == 0
    &&& n.2 > 1_270_000 ==> note.velocity == 1_270_000
    &&& note.label.len() == 0
}

/// The clip is as long as its notes need: whole quarters, at least eight steps,
/// and no quarter more than that.
pub open spec fn is_fitted(c: PatternView) -> bool {
    &&& c.total_steps >= 8
    &&& c.total_steps % 4 == 0
    &&& forall|i: int|
        0 <= i < c.notes.len() ==> (#[trigger] c.notes[i]).start_step + c.notes[i].length_steps
            <= c.total_steps * UNITS_PER_STEP
    &&& c.total_steps > 8 ==> exists|i: int|
        0 <= i < c.notes.len() && (#[trigger] c.notes[i]).start_step + c.notes[i].length_steps > (
        c.total_steps - 4) * UNITS_PER_STEP
}

/// Every note ends where an index can count the steps.
pub open spec fn ends_in_reach(c: PatternView) -> bool {
    forall|i: int|
        0 <= i < c.notes.len() ==> (#[trigger] c.notes[i]).start_step + c.notes[i].length_steps <= (
        usize::MAX - 4) * UNITS_PER_STEP
}

proof fn lemma_grid_time(ticks: u64, ppq: u32)
    requires
        ppq > 0,
    ensures
        is_grid_time(units_of_ticks(ticks, ppq), ticks, ppq),
{
    let p = ticks * UNITS_PER_QUARTER;
    let d = ppq as int;
    let q = nearest(p, d);
    let m = max_units();
    assert(ticks * (4 * UNITS_PER_STEP) == p);
    assert(p >= 0) by (nonlinear_arith)
        requires
            p == ticks * UNITS_PER_QUARTER,
    ;
    assert(2 * (q * d) <= 2 * p + d && 2 * p < 2 * (q * d) + d && q >= 0) by (nonlinear_arith)
        requires
            q == (2 * p + d) / (2 * d),
            d > 0,
            p >= 0,
    ;
    if p <= m * d {
        assert(q <= m) by (nonlinear_arith)
            requires
                2 * (q * d) <= 2 * p + d,
                p <= m * d,
                d > 0,
        ;
        assert(units_of_ticks(ticks, ppq) == q);
    } else {
        assert(q >= m) by (nonlinear_arith)
            requires
                2 * p < 2 * (q * d) + d,
                p > m * d,
                d > 0,
        ;
        assert(units_of_ticks(ticks, ppq) == m);
    }
}

proof fn lemma_imported_note(n: TickNote, ppq: u32, id: u64)
    requires
        ppq > 0,
    ensures
        is_imported_note(clip_note(n, ppq, id), n, ppq),
        clip_note(n, ppq, id).id == id,
{
    lemma_grid_time(n.0, ppq);
    lemma_grid_time(n.3, ppq);
    let u = units_of_ticks(n.3, ppq);
    let d = ppq as int;
    let p = n.3 * (4 * UNITS_PER_STEP);
    if n.3 * 8 >= ppq {
        assert(2 * p >= UNITS_PER_STEP * d);
        if p <= max_units() * ppq {
            let h = HALF_STEP as int;
            assert(2 * h == UNITS_PER_STEP);
            assert(u >= h) by (nonlinear_arith)
                requires
                    -d <= 2 * (u * d - p),
                    2 * p >= (2 * h) * d,
                    d > 0,
            ;
        }
    }
    if n.3 * 8 <= ppq {
        let h = HALF_STEP as int;
        assert(2 * h == UNITS_PER_STEP);
        assert(2 * p <= UNITS_PER_STEP * d);
        assert(p <= max_units() * d) by (nonlinear_arith)
            requires
                2 * p <= UNITS_PER_STEP * d,
                d > 0,
                UNITS_PER_STEP <= 2 * max_units(),
        ;
        assert(u <= h) by (nonlinear_arith)
            requires
                2 * (u * d - p) <= d,
                2 * p <= (2 * h) * d,
                d > 0,
        ;
    }
}

proof fn lemma_end_is_reached(notes: Seq<NoteView>)
    requires
        last_end(notes) > 0,
    ensures
        exists|i: int| 0 <= i < notes.len() && end_of(#[trigger] notes[i]) == last_end(notes),
    decreases notes.len(),
{
    if notes.len() > 0 {
        let rest = notes.drop_last();
        if end_of(notes.last()) > last_end(rest) {
            assert(end_of(notes[notes.len() - 1]) == last_end(notes));
        } else {
            lemma_end_is_reached(rest);
            let i = choose|i: int|
                0 <= i < rest.len() && end_of(#[trigger] rest[i]) == last_end(rest);
            assert(notes[i] == rest[i]);
        }
    }
}

proof fn lemma_fitted(p: PatternView)
    requires
        ends_in_reach(fitted(p)),
    ensures
        is_fitted(fitted(p)),
{
    let c = fitted(p);
    let e = last_end(p.notes);
    lemma_last_end(p.notes);
    if e > 0 {
        lemma_end_is_reached(p.notes);
        let i = choose|i: int| 0 <= i < p.notes.len() && end_of(#[trigger] p.notes[i]) == e;
        assert(c.notes[i] == p.notes[i]);
        assert(e <= (usize::MAX - 4) * UNITS_PER_STEP);
    }
    assert forall|i: int| 0 <= i < c.notes.len() implies (#[trigger] c.notes[i]).start_step
        + c.notes[i].length_steps <= c.total_steps * UNITS_PER_STEP by {
        assert(end_of(p.notes[i]) <= e);
    }
}

/// How many of the first `j` tracks are selected.
pub open spec fn chosen_before(tracks: Seq<ImportedTrack>, j: int) -> nat
    decreases j,
{
    if j <= 0 {
        0
    } else {
        chosen_before(tracks, j - 1) + if tracks[j - 1].selected {
            1nat
        } else {
            0
        }
    }
}

/// How many notes the selected ones of the first `j` tracks have.
pub open spec fn notes_before(tracks: Seq<ImportedTrack>, j: int) -> nat
    decreases j,
{
    if j <= 0 {
        0
    } else {
        notes_before(tracks, j - 1) + if tracks[j - 1].selected {
            tracks[j - 1].notes@.len()
        } else {
            0
        }
    }
}

proof fn lemma_chosen(tracks: Seq<ImportedTrack>, j: int)
    requires
        0 <= j <= tracks.len(),
    ensures
        selected_tracks(tracks).len() == chosen_before(tracks, tracks.len() as int),
        chosen_before(tracks, j) <= chosen_before(tracks, tracks.len() as int),
        j < tracks.len() && tracks[j].selected ==> chosen_before(tracks, j) < chosen_before(
            tracks,
            tracks.len() as int,
        ) && selected_tracks(tracks)[chosen_before(tracks, j) as int] == tracks[j],
    decreases tracks.len(),
{
    reveal(Seq::filter);
    if tracks.len() > 0 {
        let rest = tracks.drop_last();
        let n = rest.len() as int;
        lemma_chosen_prefix(rest, tracks, n);
        if j < tracks.len() {
            lemma_chosen_prefix(rest, tracks, j);
            lemma_chosen(rest, j);
            if j < n {
                assert(rest[j] == tracks[j]);
            }
        } else {
            lemma_chosen(rest, n);
        }
    }
}

pub(crate) proof fn lemma_chosen_prefix(a: Seq<ImportedTrack>, b: Seq<ImportedTrack>, j: int)
    requires
        0 <= j <= a.len() <= b.len(),
        forall|i: int| 0 <= i < a.len() ==> a[i] == b[i],
    ensures
        chosen_before(a, j) == chosen_before(b, j),
        notes_before(a, j) == notes_before(b, j),
    decreases j,
{
    if j > 0 {
        lemma_chosen_prefix(a, b, j - 1);
        assert(a[j - 1] == b[j - 1]);
    }
}

/// Importing to separate clips gives a clip for each selected track, in the order
/// of the tracks: it is named like the track, has the time signature of the file,
/// holds the notes of the track one for one, and is as long as they need.
pub proof fn a_selected_track_becomes_a_clip(data: ImportData, j: int)
    requires
        data.ppq > 0,
        0 <= j < data.tracks@.len(),
        data.tracks@[j].selected,
    ensures
        clips_of(data, true).len() == chosen_before(data.tracks@, data.tracks@.len() as int),
        clip_names_of(data, true).len() == clips_of(data, true).len(),
        chosen_before(data.tracks@, j) < clips_of(data, true).len(),
        clip_names_of(data, true)[chosen_before(data.tracks@, j) as int]
            == data.tracks@[j].name@,
        ({
            let c = clips_of(data, true)[chosen_before(data.tracks@, j) as int];
            let notes = data.tracks@[j].notes@;
            &&& c.beats_per_bar == data.beats_per_bar
            &&& c.beat_unit == data.beat_unit
            &&& c.notes.len() == notes.len()
            &&& c.next_id == notes.len()
            &&& forall|i: int|
                0 <= i < notes.len() ==> (#[trigger] c.notes[i]).id == i && is_imported_note(
                    c.notes[i],
                    notes[i],
                    data.ppq,
                )
            &&& ends_in_reach(c) ==> is_fitted(c)
        }),
{
    lemma_chosen(data.tracks@, j);
    let at = chosen_before(data.tracks@, j) as int;
    assert(clips_of(data, true)[at] == track_clip(data, data.tracks@[j]));
    lemma_track_clip(data, data.tracks@[j]);
}

proof fn lemma_track_clip(data: ImportData, t: ImportedTrack)
    requires
        data.ppq > 0,
    ensures
        ({
            let c = track_clip(data, t);
            let notes = t.notes@;
            &&& c.beats_per_bar == data.beats_per_bar
            &&& c.beat_unit == data.beat_unit
            &&& c.notes.len() == notes.len()
            &&& c.next_id == notes.len()
            &&& forall|i: int|
                0 <= i < notes.len() ==> (#[trigger] c.notes[i]).id == i && is_imported_note(
                    c.notes[i],
                    notes[i],
                    data.ppq,
                )
            &&& ends_in_reach(c) ==> is_fitted(c)
        }),
{
    let c = track_clip(data, t);
    let p = plus_notes(blank_clip(data), t.notes@, data.ppq);
    assert(t.notes.len() == t.notes@.len());
    track_clip_holds_the_track(data, t);
    lemma_plus_notes(blank_clip(data), t.notes@, data.ppq);
    lemma_same_signature(blank_clip(data), t.notes@, data.ppq);
    assert(c.notes == p.notes && c.next_id == p.next_id);
    assert forall|i: int| 0 <= i < t.notes@.len() implies (#[trigger] c.notes[i]).id == i
        && is_imported_note(c.notes[i], t.notes@[i], data.ppq) by {
        assert(c.notes[i] == clip_note(t.notes@[i], data.ppq, i as u64));
        lemma_imported_note(t.notes@[i], data.ppq, i as u64);
    }
    if ends_in_reach(c) {
        lemma_fitted(p);
    }
}

proof fn lemma_same_signature(p: PatternView, notes: Seq<TickNote>, ppq: u32)
    ensures
        plus_notes(p, notes, ppq).beats_per_bar == p.beats_per_bar,
        plus_notes(p, notes, ppq).beat_unit == p.beat_unit,
    decreases notes.len(),
{
    if notes.len() > 0 {
        lemma_same_signature(p, notes.drop_last(), ppq);
    }
}

proof fn lemma_merged(data: ImportData, tracks: Seq<ImportedTrack>, j: int, i: int)
    requires
        data.ppq > 0,
        selected_notes(tracks) <= u64::MAX,
        0 <= j <= tracks.len(),
        j < tracks.len() ==> tracks[j].selected && 0 <= i < tracks[j].notes@.len(),
    ensures
        ({
            let r = plus_tracks(blank_clip(data), tracks, data.ppq);
            let at = notes_before(tracks, j) + i;
            &&& ids_unique(r)
            &&& r.beats_per_bar == data.beats_per_bar
            &&& r.beat_unit == data.beat_unit
            &&& r.next_id == notes_before(tracks, tracks.len() as int)
            &&& r.notes.len() == notes_before(tracks, tracks.len() as int)
            &&& selected_notes(tracks) == notes_before(tracks, tracks.len() as int)
            &&& j < tracks.len() ==> at < r.notes.len() && r.notes[at].id == at
                && is_imported_note(r.notes[at], tracks[j].notes@[i], data.ppq)
        }),
    decreases tracks.len(),
{
    let r = plus_tracks(blank_clip(data), tracks, data.ppq);
    if tracks.len() > 0 {
        let rest = tracks.drop_last();
        let n = rest.len() as int;
        let before = plus_tracks(blank_clip(data), rest, data.ppq);
        lemma_chosen_prefix(rest, tracks, n);
        if j < n {
            assert(rest[j] == tracks[j]);
            lemma_chosen_prefix(rest, tracks, j);
            lemma_merged(data, rest, j, i);
        } else {
            lemma_merged(data, rest, n, 0);
        }
        let t = tracks.last();
        if t.selected {
            lemma_plus_notes(before, t.notes@, data.ppq);
            lemma_same_signature(before, t.notes@, data.ppq);
            if j < n {
                let at = notes_before(tracks, j) + i;
                assert(r.notes[at] == before.notes[at]);
            } else if j == n {
                let at = before.notes.len() + i;
                assert(r.notes[at] == clip_note(
                    t.notes@[i],
                    data.ppq,
                    (before.next_id + i) as u64,
                ));
                lemma_imported_note(t.notes@[i], data.ppq, (before.next_id + i) as u64);
            }
        }
    }
}

/// Importing to one clip gives a clip with the notes of the selected tracks, those
/// of the first track first, numbered from zero, under the time signature of the
/// file, and as long as they need.
pub proof fn selected_tracks_are_merged(data: ImportData, j: int, i: int)
    requires
        data.ppq > 0,
        selected_notes(data.tracks@) <= u64::MAX,
        0 <= j < data.tracks@.len(),
        data.tracks@[j].selected,
        0 <= i < data.tracks@[j].notes@.len(),
    ensures
        clips_of(data, false).len() == 1,
        clip_names_of(data, false) == seq!["Imported"@],
        ({
            let c = clips_of(data, false)[0];
            let at = notes_before(data.tracks@, j) + i;
            &&& c.beats_per_bar == data.beats_per_bar
            &&& c.beat_unit == data.beat_unit
            &&& c.notes.len() == notes_before(data.tracks@, data.tracks@.len() as int)
            &&& c.next_id == c.notes.len()
            &&& at < c.notes.len()
            &&& c.notes[at].id == at
            &&& is_imported_note(c.notes[at], data.tracks@[j].notes@[i], data.ppq)
            &&& ends_in_reach(c) ==> is_fitted(c)
        }),
{
    lemma_merged(data, data.tracks@, j, i);
    if ends_in_reach(clips_of(data, false)[0]) {
        lemma_fitted(plus_tracks(blank_clip(data), data.tracks@, data.ppq));
    }
}

/// Merging tracks without notes, or none, gives one clip of eight steps with the
/// time signature of the file.
pub proof fn merging_nothing_gives_an_empty_clip(data: ImportData)
    requires
        data.ppq > 0,
        forall|j: int|
            0 <= j < data.tracks@.len() && (#[trigger] data.tracks@[j]).selected
                ==> data.tracks@[j].notes@.len() == 0,
    ensures
        clips_of(data, false).len() == 1,
        clips_of(data, false)[0].notes.len() == 0,
        clips_of(data, false)[0].total_steps == 8,
        clips_of(data, false)[0].beats_per_bar == data.beats_per_bar,
        clips_of(data, false)[0].beat_unit == data.beat_unit,
{
    lemma_no_notes(data.tracks@);
    lemma_merged(data, data.tracks@, data.tracks@.len() as int, 0);
}

proof fn lemma_no_notes(tracks: Seq<ImportedTrack>)
    requires
        forall|j: int|
            0 <= j < tracks.len() && (#[trigger] tracks[j]).selected ==> tracks[j].notes@.len()
                == 0,
    ensures
        selected_notes(tracks) == 0,
    decreases tracks.len(),
{
    if tracks.len() > 0 {
        assert(tracks[tracks.len() - 1] == tracks.last());
        let rest = tracks.drop_last();
        assert forall|j: int|
            0 <= j < rest.len() && (#[trigger] rest[j]).selected implies rest[j].notes@.len()
            == 0 by {
            assert(tracks[j] == rest[j]);
        }
        lemma_no_notes(rest);
    }
}

} // verus!
