# spellclash

A rules engine for a trading card game, written in Verus, together with the
game of Nim that exercises game-playing agents.

The engine models cards by their printed characteristics only: cards have no
abilities, modes or targets. Within that model it covers the turn structure,
priority, casting and resolving spells, paying mana with basic lands,
control-changing effects,
declaring attackers and blockers, combat damage, state-based actions, the
legal actions offered to players and the actions taken automatically on their
behalf, prompts, and reading mana costs and power and toughness from card
text.

## Layout

- `src/` — the verified library.
  - `primitives`, `id_collections`, `game_state`: players, steps, zones, sorted
    identifier sets and maps, and the state of a game.
  - `card_parser`: card text (mana costs, power, toughness, comma lists).
  - `card_queries`, `card_predicates`, `player_queries`, `combat_queries`:
    questions about a game.
  - `move_card`, `permanents`, `players`, `spells`, `create_copy`,
    `change_controller`: changes to cards and players.
  - `state_based_actions`, `steps`, `priority`, `resolve`: how the game moves
    on.
  - `spell_planner`, `play_card`: paying for and playing cards.
  - `combat_actions`, `prompts`, `actions`: carrying out players' actions.
  - `legality`, `auto_pass`: which actions players may take, and which are
    taken for them.
  - `new_game`: the decks, setting up a game from them, and drawing opening
    hands.
  - `nim`: the game of Nim and its perfect player.
- `tests/` — tests of the library.
- `app/` — a command line Nim program.

Each law the library keeps is a public proof function whose name starts with
`law_`.
