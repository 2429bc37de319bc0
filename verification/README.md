# Tonique

The core of a digital audio workstation, written in Verus and proved
against its contracts.

- `src/` is the verified library: the project state (tracks, clips, solo,
  selection, effect chains and the undo/redo history), the commands it sends
  to the audio thread, the audio thread's track graph and transport state
  machine, the file browser tree and the user configuration. Laws that span
  several operations are proved in `laws.rs`, `engine_laws.rs` and beside the
  functions they speak of.
- `tests/` runs the library on concrete values.
- `app/` is a small command-line program around the library: it loads and
  saves the configuration, reads directories for the browser, and drives the
  audio thread's state with the project's commands. Floating-point values
  (tempo, positions, trims) are kept by the library as `f32` bit patterns and
  computed with only there.
