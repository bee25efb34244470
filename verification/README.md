# rayshot

A screenshot tool for GNOME on Wayland: it freezes the screen, lets you select a part of it,
draw on it and type on it, and copies or saves the result.

* `src/` is the library, verified with Verus: what is selected and drawn, the undo history,
  pixelation, the assembly of the monitors' pictures into one desktop, the frame file format,
  file names and paths, the settings that are changed and restored, and the command line.
* `app/` is the program around it: windows, the graphics card, the desktop portal, the
  streams, files and processes. Coordinates are floating-point numbers there; the library
  carries them by their bit patterns, compares them exactly, and is handed the results of
  whatever arithmetic they need.
* `tests/` runs the library.

The proof functions whose names begin with `law_` state what holds of the library as a whole.
The contracts of calls into other crates, which are not proved, stand in `src/capture.rs`,
`src/color.rs`, `src/export.rs`, `src/scene.rs` and `src/text.rs`.
