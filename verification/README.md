# blackjackrs

A single-player console blackjack game with configurable table rules, exact
whole-chip accounting and a shuffled shoe, written in Verus: the rules engine,
the bankroll session and the console's parsing and text are verified against
their contracts.

## Layout

| Path | Contents |
| --- | --- |
| `src/card.rs` | Suits, ranks, cards and their printed forms |
| `src/hand.rs` | Hands, totals, softness, naturals, busts and pairs |
| `src/money.rs` | Chips with checked arithmetic and decimal text |
| `src/rules.rs` | Validated table configuration and wager rules |
| `src/shoe.rs` | Fresh decks, the seeded generator and the shuffled shoe (through `rand`), drawing |
| `src/round.rs` | Deal, player actions, insurance, dealer play and settlement |
| `src/session.rs` | The bankroll across rounds |
| `src/cli.rs` | Input parsing, the text shown to the player, and what each typed line does |
| `src/properties.rs` | Properties proved of the library as a whole |
| `tests/` | Scenario tests of the library |
| `app/main.rs` | Reading the seed, the system fallback, the prompt loop and standard streams |

Each operation states its effect over a mathematical model (`RoundView`,
`SessionView`, sequences of cards, amounts as integers), and
`src/properties.rs` proves the properties that span operations: chips are
conserved by every action, refused input changes nothing, the dealer follows
the house rules, a split hand's twenty-one is a regular win, and a fresh shoe
holds every card once per deck.

The only trusted items are the declaration of `rand::rngs::StdRng`, the
wrapper around `rand::seq::SliceRandom::shuffle`, whose contract says that
the shuffled cards are a permutation of the input, and the wrapper around
`StdRng::from_seed`, of whose generator nothing is stated.
