# vhs-gui

The core of a desktop application for digitizing VHS tapes, written in Verus:
executable Rust whose behaviour is stated in contracts and proved.

- `src/` is the library. It decides and computes; it starts no process and
  touches no file.
  - `config`: directories and scripts, layered from saved overrides,
    environment variables and defaults.
  - `vs_ops`: the VapourSynth operations, each a pipe of `vspipe` into `ffmpeg`.
  - `fix_sync`: correction of audio drift by a change of tempo.
  - `audio_cleanup`: hum notching, noise reduction and loudness normalization.
  - `app`: the state of the main window and the order of the steps of a frame.
  - `build_info`: what a build records of its commit.
  - `path`, `text`, `encoding`, `binary64`, `ieee`, `command`, `job`: paths,
    texts, doubles and command lines as plain values.
- `tests/` runs the library on concrete values.
- `app/` is ordinary Rust around it: processes, files, environment variables
  and the window. The player, the panels, the settings store and the job runner
  are reached through traits.

Where the outside world has to answer first (is this a file? how long is this
stream?), the library is a function from a stage and its answer to the next
stage, an error or the job to start. The laws named `law_*` say what such a run
comes to as a whole.

Doubles are held as their IEEE 754 bits. Their arithmetic is verified against
the definition of rounding to nearest; reading a double from text and writing
it in its shortest form are left to `app/`.
