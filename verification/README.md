# doom_terminal

A terminal front end for Doom: the C engine (doomgeneric) renders, this
program reads the keyboard and draws the engine's frames as coloured
terminal cells.

- `src/` is the verified library (Verus):
  - `bytes` — little-endian integer reads;
  - `wad` — WAD archive decoding: header, directory, lumps, map geometry,
    palette, texture definitions and composition from patches, flats, and
    the order of BSP segments;
  - `input` — key mapping, held actions with a stale timeout, opposed
    actions, discrete actions;
  - `engine` — the engine's input mask and key events, its start-up
    decisions and the scaling of its 320x200 screen into a frame;
  - `provider` — the engine-backed frame source and the walls handed to it;
  - `game` — map bounds, player starts, pickups, collision lines, how a
    frame's input reaches the engine, and the status line;
  - `render` — glyph and colour choice of a cell, edge strength, sampling
    grid, cell fingerprints, and the per-cell step that updates the cell
    cache and merges adjacent cells of one style into a span (the terminal
    writes themselves are in `app/`).
- `app/` is the program around it: terminal I/O with crossterm, the
  foreign engine and its callbacks, floating-point sampling and tone
  mapping, and the main loop.
- `tests/` exercises the library.
