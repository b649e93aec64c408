# todge

A terminal dodging game: the player runs, dashes and flies along a 50 x 20
board while obstacles fall from the top; flying high charges an ultimate
that clears the lower board and shields the player for a few seconds.

- `src/` is the game logic, verified with Verus: the board and its
  constants (`config`), the player (`player`), obstacles (`obstacle`), dash
  trails (`dash`), the ultimate (`ultimate`), the state of a game and its
  operations (`app`), the rules those operations follow (`rules`) and
  properties that span several of them (`laws`). Times are counted in
  nanoseconds and speeds in hundredths of a cell per second.
- `app/` is the terminal front end: it reads keys, keeps the clock and draws
  the board with ratatui.
- `tests/` runs the library on concrete games.
