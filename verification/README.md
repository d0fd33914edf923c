# tetris

The logic of a small falling-block puzzle game, verified with Verus.

- `src/board.rs`: pieces (`Blocks`), their shapes and random sampling, and the
  playing field (`Board`): testing moves, spawning the next
  piece.
- `src/graphics.rs`, `src/game/graphics.rs`: the draw lists of a frame, as
  plain commands (clear, tint, copy a sprite into a rectangle, present).
- `src/game/mod.rs`: the decisions of the frame loop (`FrameLoop`): when to
  stop, when to tear down and rebuild the swapchain, when the piece drops,
  how long to sleep.
- `src/utils.rs`: GPU upload arithmetic: push-constant counts, buffer
  lengths, memory-type search, row pitch and image row packing.
- `src/obj.rs`: reading Wavefront OBJ text: lines, words, `i32` indices, and
  the coordinate words of the vertices.
- `app/`: the program around the library: windows, events, the GPU and SDL
  calls, file reading, and the floating-point vertex and projection math.
