# battletris

The rules engine of BattleTris, a two-player falling-blocks game with a
weapons bazaar, written in Verus: each function states its behaviour in
`requires` / `ensures` and Verus proves it.

## Layout

- `src/` — the verified library.
  - `cell`, `weapons`, `constants` — boxes, the weapon table, game constants.
  - `board` — the playfield: landing, line clearing, garbage lines, every
    weapon's board effect and its reversal.
  - `piece` — the pieces, moves and turns (quarter turns and the hand-made
    Wall, Star and Weird Long rotations).
  - `arsenal`, `bazaar` — the weapon slots, buying and selling.
  - `engine` — a single player's game: the virtual clock, falling, sliding,
    locking, scoring, weapons taking effect and running out, the bazaar
    countdown, keyframes. The host feeds it pieces and Mondale's tax.
  - `keyframe`, `exchange`, `wire` — keyframe words, board and arsenal wire
    words, and words as little-endian bytes.
  - `versus` — where launched weapons go, delivery between two engines, the
    head-to-head relay.
  - `ai`, `landing`, `strategy`, `policy`, `spy`, `sync`, `pacing`, `roam` —
    the computer player's board reading, landing search, steering, shopping
    and weapon policy, and the networked bot's decisions and pacing.
  - `frame` — reading the server's JSON frames (through `serde_json`) and the
    bot's view of a bout.
  - `rng` — the deterministic random stream.
- `tests/` — tests of the library.
- `app/` — the program around it: the networked bot (WebSocket I/O, sending
  JSON), the piece supply and the placement scores (floating point), and the
  match drivers that tick two games.
