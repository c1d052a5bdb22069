//! Validated table configuration and wager rules.

use vstd::prelude::*;

use crate::money::{chips_text, decimal_text, push_decimal, shortfall_message, shortfall_text, Chips};

verus! {

broadcast use crate::money::group_chips;

/// The smallest number of decks a table may deal from.
pub const MIN_DECKS: u8 = 1;

/// The largest number of decks a table may deal from.
pub const MAX_DECKS: u8 = 8;

/// The most player hands a round may hold after splitting.
pub const MAXIMUM_HANDS: usize = 4;

/// Whether the dealer stands or hits on a soft seventeen.
#[derive(Debug, Clone, Copy, PartialEq, Eq, Structural)]
pub enum Soft17Rule {
    Stand,
    Hit,
}

/// The profit paid on a natural blackjack.
#[derive(Debug, Clone, Copy, PartialEq, Eq, Structural)]
pub enum BlackjackPayout {
    ThreeToTwo,
    SixToFive,
}

impl BlackjackPayout {
    /// Numerator and denominator of the natural's profit.
    pub open spec fn ratio(self) -> (u64, u64) {
        match self {
            BlackjackPayout::ThreeToTwo => (3, 2),
            BlackjackPayout::SixToFive => (6, 5),
        }
    }

    /// The step every wager must be a multiple of, so that both the natural
    /// payout and half-wager insurance come out in whole chips.
    pub open spec fn increment(self) -> u64 {
        match self {
            BlackjackPayout::ThreeToTwo => 2,
            BlackjackPayout::SixToFive => 10,
        }
    }

    /// Numerator and denominator of the natural's profit.
    pub fn profit_ratio(self) -> (ratio: (u64, u64))
        ensures
            ratio == self.ratio(),
    {
        match self {
            BlackjackPayout::ThreeToTwo => (3, 2),
            BlackjackPayout::SixToFive => (6, 5),
        }
    }

    /// The wager increment of the payout.
    pub fn wager_increment(self) -> (increment: Chips)
        ensures
            increment@ == self.increment(),
    {
        match self {
            BlackjackPayout::ThreeToTwo => Chips::new(2),
            BlackjackPayout::SixToFive => Chips::new(10),
        }
    }
}

/// Rejected table configurations.
#[derive(Debug, Clone, Copy, PartialEq, Eq, Structural)]
pub enum RuleError {
    InvalidDeckCount(u8),
}

/// Rejected wagers.
#[derive(Debug, Clone, Copy, PartialEq, Eq, Structural)]
pub enum WagerError {
    ZeroWager,
    InsufficientFunds { available: Chips, required: Chips },
    InvalidIncrement { required: Chips },
}

impl RuleError {
    /// The message the error is reported with.
    pub open spec fn text(self) -> Seq<char> {
        match self {
            RuleError::InvalidDeckCount(count) => "deck count must be between 1 and 8, got "@ + decimal_text(
                count as nat,
            ),
        }
    }

    /// The message the error is reported with, such as
    /// `deck count must be between 1 and 8, got 9`.
    pub fn to_string(&self) -> (text: String)
        ensures
            text@ == self.text(),
    {
        match self {
            RuleError::InvalidDeckCount(count) => {
                let mut text = String::from_str("deck count must be between 1 and 8, got ");
                push_decimal(&mut text, *count as u64);
                text
            },
        }
    }
}

impl WagerError {
    /// The message the error is reported with.
    pub open spec fn text(self) -> Seq<char> {
        match self {
            WagerError::ZeroWager => "wager must be greater than zero"@,
            WagerError::InsufficientFunds { available, required } => shortfall_text(available@, required@),
            WagerError::InvalidIncrement { required } => "wager must be a multiple of "@ + chips_text(required@),
        }
    }

    /// The message the error is reported with, such as
    /// `wager must be a multiple of 2 chips`.
    pub fn to_string(&self) -> (text: String)
        ensures
            text@ == self.text(),
    {
        match self {
            WagerError::ZeroWager => String::from_str("wager must be greater than zero"),
            WagerError::InsufficientFunds { available, required } => shortfall_message(*available, *required),
            WagerError::InvalidIncrement { required } => {
                let mut text = String::from_str("wager must be a multiple of ");
                text.append(required.to_string().as_str());
                text
            },
        }
    }
}

/// A validated table configuration.
#[derive(Debug, Clone, Copy, PartialEq, Eq, Structural)]
pub struct TableRules {
    deck_count: u8,
    soft_17: Soft17Rule,
    blackjack_payout: BlackjackPayout,
}

/// Whether a deck count is one a table may use.
pub open spec fn valid_deck_count(deck_count: u8) -> bool {
    MIN_DECKS <= deck_count <= MAX_DECKS
}

/// The table whose fields are the given values.
pub closed spec fn rules_of(deck_count: u8, soft_17: Soft17Rule, blackjack_payout: BlackjackPayout) -> TableRules {
    TableRules { deck_count, soft_17, blackjack_payout }
}

impl TableRules {
    pub closed spec fn spec_deck_count(self) -> u8 {
        self.deck_count
    }

    pub closed spec fn spec_soft_17(self) -> Soft17Rule {
        self.soft_17
    }

    pub closed spec fn spec_blackjack_payout(self) -> BlackjackPayout {
        self.blackjack_payout
    }

    /// Every table that `new` builds has a deck count in range.
    #[verifier::type_invariant]
    pub closed spec fn wf(self) -> bool {
        valid_deck_count(self.deck_count)
    }

    /// The fields of `rules_of` are its arguments, and it is well formed
    /// exactly when its deck count is valid.
    pub broadcast proof fn lemma_rules_of(deck_count: u8, soft_17: Soft17Rule, blackjack_payout: BlackjackPayout)
        ensures
            #[trigger] rules_of(deck_count, soft_17, blackjack_payout).deck_count() == deck_count,
            rules_of(deck_count, soft_17, blackjack_payout).soft_17() == soft_17,
            rules_of(deck_count, soft_17, blackjack_payout).blackjack_payout() == blackjack_payout,
            rules_of(deck_count, soft_17, blackjack_payout).wf() == valid_deck_count(deck_count),
    {
    }

    /// A well-formed table has a deck count in range.
    pub broadcast proof fn lemma_wf(rules: TableRules)
        ensures
            #[trigger] rules.wf() == valid_deck_count(rules.deck_count()),
    {
    }

    /// The table with the given configuration; `InvalidDeckCount` exactly when
    /// the deck count lies outside one through eight.
    pub fn new(deck_count: u8, soft_17: Soft17Rule, blackjack_payout: BlackjackPayout) -> (result: Result<TableRules, RuleError>)
        ensures
            valid_deck_count(deck_count) ==> result == Ok::<TableRules, RuleError>(rules_of(deck_count, soft_17, blackjack_payout)),
            !valid_deck_count(deck_count) ==> result == Err::<TableRules, RuleError>(RuleError::InvalidDeckCount(deck_count)),
            result matches Ok(rules) ==> rules.wf(),
    {
        if deck_count < MIN_DECKS || deck_count > MAX_DECKS {
            return Err(RuleError::InvalidDeckCount(deck_count));
        }
        Ok(TableRules { deck_count, soft_17, blackjack_payout })
    }

    #[verifier::when_used_as_spec(spec_deck_count)]
    pub fn deck_count(self) -> (deck_count: u8)
        ensures
            deck_count == self.deck_count(),
            valid_deck_count(deck_count),
    {
        proof {
            use_type_invariant(&self);
        }
        self.deck_count
    }

    #[verifier::when_used_as_spec(spec_soft_17)]
    pub fn soft_17(self) -> (rule: Soft17Rule)
        ensures
            rule == self.soft_17(),
    {
        self.soft_17
    }

    #[verifier::when_used_as_spec(spec_blackjack_payout)]
    pub fn blackjack_payout(self) -> (payout: BlackjackPayout)
        ensures
            payout == self.blackjack_payout(),
    {
        self.blackjack_payout
    }

    /// Numerator and denominator of the natural's profit at this table.
    pub fn blackjack_profit_ratio(self) -> (ratio: (u64, u64))
        ensures
            ratio == self.blackjack_payout().ratio(),
    {
        self.blackjack_payout.profit_ratio()
    }

    /// The step every wager at this table must be a multiple of.
    pub fn wager_increment(self) -> (increment: Chips)
        ensures
            increment@ == self.blackjack_payout().increment(),
    {
        self.blackjack_payout.wager_increment()
    }

    /// The most player hands a round may hold.
    pub fn maximum_hands(self) -> (maximum: usize)
        ensures
            maximum == MAXIMUM_HANDS,
    {
        MAXIMUM_HANDS
    }

    /// The verdict on a wager: positive, covered by the bankroll, and a
    /// multiple of the table's increment, checked in that order.
    pub open spec fn wager_verdict(self, wager: Chips, bankroll: Chips) -> Result<(), WagerError> {
        if wager@ == 0 {
            Err(WagerError::ZeroWager)
        } else if wager@ > bankroll@ {
            Err(WagerError::InsufficientFunds { available: bankroll, required: wager })
        } else if wager@ % self.blackjack_payout().increment() != 0 {
            Err(WagerError::InvalidIncrement { required: Chips::spec_new(self.blackjack_payout().increment()) })
        } else {
            Ok(())
        }
    }

    /// Checks a wager against the bankroll and the table's increment.
    pub fn validate_wager(self, wager: Chips, bankroll: Chips) -> (result: Result<(), WagerError>)
        ensures
            result == self.wager_verdict(wager, bankroll),
            result is Ok <==> 0 < wager@ <= bankroll@ && wager@ % self.blackjack_payout().increment() == 0,
    {
        if wager.value() == 0 {
            return Err(WagerError::ZeroWager);
        }
        if wager.value() > bankroll.value() {
            return Err(WagerError::InsufficientFunds { available: bankroll, required: wager });
        }
        let increment = self.wager_increment();
        if wager.value() % increment.value() != 0 {
            assert(increment == Chips::spec_new(self.blackjack_payout().increment())) by {
                Chips::lemma_view_eq(increment, Chips::spec_new(self.blackjack_payout().increment()));
            }
            return Err(WagerError::InvalidIncrement { required: increment });
        }
        Ok(())
    }
}

} // verus!
