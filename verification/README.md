# simple_pianoroll

The core of a small piano-roll tool for experimenting with tunings, written in
Rust and verified with Verus: an editable pattern, the editor that works on it,
the transport that plays it in a loop, MIDI import and the project snapshot.

- `src/` is the library. Every function states what it does in its contract, and
  the contracts are proved.
  - `grid`, `level`, `tuning`: exact time, loudness and tuning values
  - `pattern`: notes, and the loop they make up
  - `events`, `sort`: the sorted schedule of one loop
  - `audio`, `timbre`: the engine that plays it sample by sample
  - `playback`: what holds of playing over time
  - `pianoroll`, `gesture`, `edits`, `clips`: the editor
  - `editing`: what holds of editing
  - `display`, `text`: note names, colors, snapping
  - `smf`, `midi`: MIDI files
  - `project`, `session`, `wasm_io`: projects, and the commands of the user
    interface
- `tests/` runs the library on examples.
- `app/` is the program around it: window, sound generator, audio device, file
  dialogs and project files.

A position on the grid is a whole number of units, `UNITS_PER_STEP` to a step; a
loudness is a whole number of `LEVEL_ONE`-ths; a tempo is a fraction. Steps,
tuplets and the usual MIDI resolutions fall on whole units. The positions of a
MIDI file whose resolution does not fit are rounded to the nearest unit, less
than a trillionth of a millionth of a step. So playback can be stated sample by
sample.
