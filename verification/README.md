# solitaire

The rules and state of a patience game, verified with Verus.

The board has fourteen depots: four foundations, a free cell, the stock, the
waste and seven tableau columns. A deal lays column `c` out with the next `c + 1`
cards and puts the rest (24 of a full deck) into the stock. Clicking the stock deals up
to three cards onto the waste; cards are moved by selecting them and clicking
a destination; tableau columns are built down in alternating colours, the
foundations up by suit from the ace; the free cell can be used once the stock
has run out. Cards that are safe to sort are moved to the foundations
automatically, and moves can be undone.

Layout:

- `src/card.rs` — suits, colours, cards, the full deck.
- `src/board.rs` — depot roles, positions, the board and its moves, the deal layout.
- `src/rules.rs` — which cards may be picked up and where they may go, the
  history of moves and how it replays and is undone.
- `src/safe_sorts.rs` — the rule for sorting to the foundations without harm.
- `src/game.rs` — the game state and the player's actions on it.
- `src/laws.rs` — properties of the game that span several actions.
- `tests/` — tests of the library.
- `app/` — the Dioxus front end and the saving of the game state.
