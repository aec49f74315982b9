# rust_poker

A toolkit for heads-up limit hold'em: cards and decks, a lookup-table hand
evaluator, card abstractions of a player's information set, the game state of
a hand, the byte encodings of actions and histories, and the bookkeeping of a
subgame solver. The library under `src/` is written in Verus; each public
function states its behaviour in `requires`/`ensures` and is proved against
it.

Layout:

- `src/models`: suits, ranks, cards, decks and deals; random deals of
  distinct cards; rank and card combinations.
- `src/evaluate`: the three lookup tables (flushes, five distinct ranks,
  repeated ranks), their generators, and the five-, seven- and nine-card
  evaluations. The order of the cards never changes a result
  (`lemma_evaluate_five_order_invariant`,
  `lemma_evaluate_nine_order_invariant`).
- `src/traversal`: actions and action histories with their byte encodings
  (the proved read-back laws say which encodings their decoders recover, and
  on which values), history validation, the board,
  straight, flush and connected-card abstractions, the game abstraction keys,
  the game state with its transitions and their undo operations, and the
  strategy files' names and base64 information-set keys (through `base64`).
- `src/subgame_solver`: replaying a list of actions into a game state, the
  cards and hole-card pairs still in the deck, and the chosen-action step of
  the solver's search.
- `src/thread_utils`: the random number generation, behind trusted wrappers
  of `rand`.
- `app/`: the command-line program (`train`, `solve`, `validate`), the
  strategy store and the reading and writing of its gzip/JSON files, and the
  floating-point strategy updates and reach/payoff arithmetic.
- `tests/`: tests of the library on concrete values.
