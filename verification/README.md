# tetris

The rules of a falling-block puzzle game, verified with Verus.

- `src/shapes.rs`: the seven pieces in four orientations each.
- `src/board.rs`: the walled board; collision, locking a piece, finding and
  clearing full rows, emptying the playfield.
- `src/game.rs`: the falling piece and its preview, spawning, dropping,
  moving, turning, scoring, what is drawn, menus and screen changes.
- `src/laws.rs`: what holds across these operations.
- `app/main.rs`: the bevy window, keyboard, clock, sprites and music around
  the library.
