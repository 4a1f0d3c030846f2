# poker_odds

A poker odds calculator with a verified core. The library (`src/`) is
written in Verus: every function carries a `requires`/`ensures` contract and
is proved against it.

- `cards` — ranks, suits, cards and their text forms; a 52-card deck kept as
  a bit mask, with random deals.
- `eval` — five-card hand evaluation with Cactus Kev style lookup tables.
  `ranking` states the poker ranking mathematically; the evaluator is proved
  to compute it, and `categories` proves that every hand's value falls in its
  poker category (straight flush, four of a kind, ...), that a higher
  category always wins and that within one the ranks decide as poker
  compares them, suits never breaking a tie. The best hand of
  seven cards, of any number of cards and of an Omaha hand is the best over
  the five-card combinations. `order` and `selection` prove that no value
  depends on the order of the cards, nor on the names of the suits, and
  that the Omaha rule only narrows the choice.
- `game` — variants, betting rounds and the state of a hand.
- `sim` — the building blocks of the odds simulation: the choice between
  exact enumeration and Monte Carlo, dealing and scoring runouts, and the
  outcome counters; and the checks of the odds requests the web front ends
  receive (variant, card texts, duplicates, settings).
- `solver` — hand ranges and their text notation, river showdown ranking,
  the exact showdown counts behind expected hand strength, and game trees:
  the Kuhn and Leduc poker trees, built with their information sets and
  proved well formed (children before parents, one action count per
  information set, payoffs within the stakes) and proved to play the games'
  rules: who acts, what each action leads to, and who wins each fold and
  each showdown for what stake.
- `tui` — the input logic of the terminal screens: card entry, the hole-card,
  board, odds, settings, solver configuration and opening screens, each a
  state machine over keys.

`app/` is the terminal front end around the library: drawing with ratatui,
reading keys with crossterm, running the simulation on background threads,
the floating-point parts (probabilities, expected hand strength, pot and bet
sizes), and a client for PIOSolver's UPI protocol.

`tests/` runs the library on concrete hands and inputs.
