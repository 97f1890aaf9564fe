//! The core of a small piano-roll tool for experimenting with tunings: the
//! editable pattern, the editor that works on it, the transport that plays it
//! in a loop, MIDI import and the project snapshot.
//!
//! A position on the grid is a whole number of grid units, `UNITS_PER_STEP` of
//! them to a step. Steps, tuplets and the usual MIDI resolutions fall on whole
//! units; the positions of a MIDI file whose resolution does not fit are rounded
//! to the nearest unit, less than a trillionth of a millionth of a step. Loudness
//! values are whole numbers of `LEVEL_ONE`-ths, a tempo is a fraction.

pub mod audio;
pub mod changes;
pub mod clips;
pub mod display;
pub mod dragging;
pub mod editing;
pub mod edits;
pub mod events;
pub mod gesture;
pub mod grid;
pub mod importing;
pub mod level;
pub mod midi;
pub mod naming;
pub mod pattern;
pub mod pianoroll;
pub mod playback;
pub mod project;
pub mod saving;
pub mod session;
pub mod smf;
pub mod sort;
pub mod text;
pub mod timbre;
pub mod timing;
pub mod transport;
pub mod tuning;
pub mod wasm_io;
