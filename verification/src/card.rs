//! Suits, ranks and cards.

use vstd::prelude::*;

verus! {

/// One of the four French suits.
#[derive(Debug, Clone, Copy, PartialEq, Eq, Structural, Hash)]
pub enum Suit {
    Clubs,
    Diamonds,
    Hearts,
    Spades,
}

/// A card rank, Ace through King.
#[derive(Debug, Clone, Copy, PartialEq, Eq, Structural, Hash)]
pub enum Rank {
    Ace,
    Two,
    Three,
    Four,
    Five,
    Six,
    Seven,
    Eight,
    Nine,
    Ten,
    Jack,
    Queen,
    King,
}

impl Suit {
    /// The symbol a suit is printed with.
    pub open spec fn symbol_text(self) -> Seq<char> {
        match self {
            Suit::Clubs => seq!['\u{2663}'],
            Suit::Diamonds => seq!['\u{2666}'],
            Suit::Hearts => seq!['\u{2665}'],
            Suit::Spades => seq!['\u{2660}'],
        }
    }

    /// The printed symbol of the suit.
    pub fn symbol(self) -> (text: &'static str)
        ensures
            text@ == self.symbol_text(),
    {
        match self {
            Suit::Clubs => {
                proof {
                    reveal_strlit("\u{2663}");
                }
                "\u{2663}"
            },
            Suit::Diamonds => {
                proof {
                    reveal_strlit("\u{2666}");
                }
                "\u{2666}"
            },
            Suit::Hearts => {
                proof {
                    reveal_strlit("\u{2665}");
                }
                "\u{2665}"
            },
            Suit::Spades => {
                proof {
                    reveal_strlit("\u{2660}");
                }
                "\u{2660}"
            },
        }
    }
}

impl Rank {
    /// Point value of a rank in blackjack, counting an Ace as one.
    pub open spec fn points(self) -> nat {
        match self {
            Rank::Ace => 1,
            Rank::Two => 2,
            Rank::Three => 3,
            Rank::Four => 4,
            Rank::Five => 5,
            Rank::Six => 6,
            Rank::Seven => 7,
            Rank::Eight => 8,
            Rank::Nine => 9,
            _ => 10,
        }
    }

    /// The label a rank is printed with.
    pub open spec fn label_text(self) -> Seq<char> {
        match self {
            Rank::Ace => seq!['A'],
            Rank::Two => seq!['2'],
            Rank::Three => seq!['3'],
            Rank::Four => seq!['4'],
            Rank::Five => seq!['5'],
            Rank::Six => seq!['6'],
            Rank::Seven => seq!['7'],
            Rank::Eight => seq!['8'],
            Rank::Nine => seq!['9'],
            Rank::Ten => seq!['1', '0'],
            Rank::Jack => seq!['J'],
            Rank::Queen => seq!['Q'],
            Rank::King => seq!['K'],
        }
    }

    /// Point value of the rank: Ace counts one, face cards count ten.
    pub fn blackjack_value(self) -> (value: u8)
        ensures
            value == self.points(),
            1 <= value <= 10,
    {
        match self {
            Rank::Ace => 1,
            Rank::Two => 2,
            Rank::Three => 3,
            Rank::Four => 4,
            Rank::Five => 5,
            Rank::Six => 6,
            Rank::Seven => 7,
            Rank::Eight => 8,
            Rank::Nine => 9,
            Rank::Ten | Rank::Jack | Rank::Queen | Rank::King => 10,
        }
    }

    /// The printed label of the rank.
    pub fn label(self) -> (text: &'static str)
        ensures
            text@ == self.label_text(),
    {
        match self {
            Rank::Ace => {
                proof {
                    reveal_strlit("A");
                }
                "A"
            },
            Rank::Two => {
                proof {
                    reveal_strlit("2");
                }
                "2"
            },
            Rank::Three => {
                proof {
                    reveal_strlit("3");
                }
                "3"
            },
            Rank::Four => {
                proof {
                    reveal_strlit("4");
                }
                "4"
            },
            Rank::Five => {
                proof {
                    reveal_strlit("5");
                }
                "5"
            },
            Rank::Six => {
                proof {
                    reveal_strlit("6");
                }
                "6"
            },
            Rank::Seven => {
                proof {
                    reveal_strlit("7");
                }
                "7"
            },
            Rank::Eight => {
                proof {
                    reveal_strlit("8");
                }
                "8"
            },
            Rank::Nine => {
                proof {
                    reveal_strlit("9");
                }
                "9"
            },
            Rank::Ten => {
                proof {
                    reveal_strlit("10");
                }
                "10"
            },
            Rank::Jack => {
                proof {
                    reveal_strlit("J");
                }
                "J"
            },
            Rank::Queen => {
                proof {
                    reveal_strlit("Q");
                }
                "Q"
            },
            Rank::King => {
                proof {
                    reveal_strlit("K");
                }
                "K"
            },
        }
    }
}

/// A playing card; its rank and suit never change after construction.
#[derive(Debug, Clone, Copy, PartialEq, Eq, Structural, Hash)]
pub struct Card {
    rank: Rank,
    suit: Suit,
}

/// The card with the given rank and suit.
pub closed spec fn card_of(rank: Rank, suit: Suit) -> Card {
    Card { rank, suit }
}

impl Card {
    pub closed spec fn spec_rank(self) -> Rank {
        self.rank
    }

    pub closed spec fn spec_suit(self) -> Suit {
        self.suit
    }

    /// The printed form of a card: its rank label followed by its suit symbol.
    pub open spec fn text(self) -> Seq<char> {
        self.rank().label_text() + self.suit().symbol_text()
    }

    pub fn new(rank: Rank, suit: Suit) -> (card: Card)
        ensures
            card == card_of(rank, suit),
            card.rank() == rank,
            card.suit() == suit,
    {
        Card { rank, suit }
    }

    #[verifier::when_used_as_spec(spec_rank)]
    pub fn rank(self) -> (rank: Rank)
        ensures
            rank == self.rank(),
    {
        self.rank
    }

    #[verifier::when_used_as_spec(spec_suit)]
    pub fn suit(self) -> (suit: Suit)
        ensures
            suit == self.suit(),
    {
        self.suit
    }

    /// The printed form of the card, such as `10` followed by the heart symbol.
    pub fn to_string(&self) -> (text: String)
        ensures
            text@ == self.text(),
    {
        let mut text = String::from_str(self.rank.label());
        text.append(self.suit.symbol());
        text
    }

    /// A card is determined by its rank and suit.
    pub broadcast proof fn lemma_card_of(rank: Rank, suit: Suit)
        ensures
            #[trigger] card_of(rank, suit).rank() == rank,
            card_of(rank, suit).suit() == suit,
    {
    }

    /// Two cards with equal rank and suit are the same card.
    pub proof fn lemma_card_eq(a: Card, b: Card)
        requires
            a.rank() == b.rank(),
            a.suit() == b.suit(),
        ensures
            a == b,
    {
    }

    /// Every card is `card_of` its own rank and suit.
    pub broadcast proof fn lemma_card_is_card_of(card: Card)
        ensures
            #[trigger] card_of(card.rank(), card.suit()) == card,
    {
    }
}

} // verus!
