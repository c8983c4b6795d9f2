# solitaire_quest

Verified core of a Klondike solitaire game, written in Verus.

- `src/klondike` — cards, piles, placement rules, the seeded deck and the
  Klondike deal, difficulty-tier seed cursors, and the solvability checker.
  The solver's contract: a "winnable" verdict comes with a line of legal
  moves from the dealt position to a won one.
- `src/progression` — XP and levels, daily streaks, weekly goal counters,
  cumulative statistics and achievement records as shared with the sync
  server.
- `src/records` — win bookkeeping on the statistics and the client-side
  achievement records.
- `src/presentation` — the text the HUD, pause, profile and win screens show,
  keyboard pile selection, the user-themes directory, and the SVG card art.
- `src/assetgen` — the 16 × 16 placeholder images and their PNG encoding.
- `app/` — the asset generator's entry point and the file, clock and
  platform plumbing: JSON persistence through serde copies of the records,
  the data directory, the themes-directory override and clock seeds.
- `tests/` — behaviour tests run against the compiled library.
