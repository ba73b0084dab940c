# raycast_tui

A terminal raycaster. The library under `src/` holds the parts with integer
and character semantics, each with a contract proved by Verus:

- `input`: keyboard state per frame (press/release tracking, key bindings,
  quit keys);
- `map`: the 24 × 24 tile grid, its parser from text rows and the world map;
- `ray`: the side a ray hits a wall on;
- `render`: the pixel buffer, column painting and the ANSI half-block frame
  encoder.

`app/` is the program around it: the terminal session, event reading, and
the real-valued parts (vectors, player movement, ray casting, colour shading).
