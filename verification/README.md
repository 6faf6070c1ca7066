# Sonido

A guitar rig as a verified library: patches and their flash format, sessions,
macros, A/B morphing, the node graph editor, export to the pedal, and the rules
behind the panels, meters and menus.

- `src/` is the library. Every function states what it does, and Verus proves it.
  Floats are carried as bit patterns; comparisons on them are in `bits`.
- `tests/` runs the library.
- `app/` is what stands around it: windows and widgets, files, the pedal's
  bootloader, JSON, the CLAP plugin, and arithmetic on samples. Audio devices and
  effects are behind the traits in `app/bridge.rs`.

## The library by subject

| Subject | Modules |
|---|---|
| Patches | `patch`, `layout`, `fields`, `binary`, `roundtrip`, `validate`, `cycle_table` |
| Running a patch | `engine`, `runtime`, `plugin` |
| Editor | `snarl`, `graph`, `viewer`, `menu`, `compile`, `arrange`, `history`, `undo` |
| Sessions | `session`, `capture`, `performance` |
| Performance | `macros`, `autoassign`, `desk`, `morph` |
| Panels and displays | `params`, `panels`, `knob`, `meter`, `spectrum`, `waveform`, `info`, `studio` |
| Export | `export`, `dfu` |
| Synthesis | `fm`, `wavetable` |
| Ground | `bits`, `text`, `seqs` |
