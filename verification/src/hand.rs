//! Hand storage and evaluation: totals, softness, naturals, busts and pairs.

use vstd::prelude::*;

use crate::card::{Card, Rank};

verus! {

/// The best total of a hand and whether an Ace is counted as eleven in it.
#[derive(Debug, Clone, Copy, PartialEq, Eq, Structural)]
pub struct HandValue {
    pub total: u16,
    pub is_soft: bool,
}

/// Sum of the point values of the cards, every Ace counted as one.
pub open spec fn hard_total(cards: Seq<Card>) -> nat
    decreases cards.len(),
{
    if cards.len() == 0 {
        0
    } else {
        hard_total(cards.drop_last()) + cards.last().rank().points()
    }
}

/// Whether some card of the sequence is an Ace.
pub open spec fn has_ace(cards: Seq<Card>) -> bool {
    exists|i: int| 0 <= i < cards.len() && #[trigger] cards[i].rank() == Rank::Ace
}

/// The hard total as the evaluator stores it: it never exceeds `u16::MAX`.
pub open spec fn capped_hard_total(cards: Seq<Card>) -> nat {
    if hard_total(cards) > u16::MAX {
        u16::MAX as nat
    } else {
        hard_total(cards)
    }
}

/// Whether one Ace of the cards counts as eleven: some Ace is present and the
/// extra ten points cannot make the hand exceed twenty-one.
pub open spec fn is_soft_cards(cards: Seq<Card>) -> bool {
    has_ace(cards) && hard_total(cards) <= 11
}

/// The best total of a sequence of cards.
pub open spec fn best_total(cards: Seq<Card>) -> nat {
    if is_soft_cards(cards) {
        hard_total(cards) + 10
    } else {
        capped_hard_total(cards)
    }
}

/// The value of a sequence of cards.
pub open spec fn value_of(cards: Seq<Card>) -> HandValue {
    HandValue { total: best_total(cards) as u16, is_soft: is_soft_cards(cards) }
}

/// Whether the cards exceed twenty-one.
pub open spec fn is_bust_cards(cards: Seq<Card>) -> bool {
    best_total(cards) > 21
}

/// Whether the cards are exactly two cards totalling twenty-one.
pub open spec fn is_two_card_21(cards: Seq<Card>) -> bool {
    cards.len() == 2 && best_total(cards) == 21
}

/// The common point value of a two-card hand whose cards have equal value.
pub open spec fn split_value_of(cards: Seq<Card>) -> Option<u8> {
    if cards.len() == 2 && cards[0].rank().points() == cards[1].rank().points() {
        Some(cards[0].rank().points() as u8)
    } else {
        None
    }
}

/// Adding a card adds its points to the hard total.
pub proof fn lemma_hard_total_push(cards: Seq<Card>, card: Card)
    ensures
        hard_total(cards.push(card)) == hard_total(cards) + card.rank().points(),
{
    assert(cards.push(card).drop_last() =~= cards);
}

/// A sequence of cards held in order.
#[derive(Debug, Clone, PartialEq, Eq, Default)]
pub struct Hand {
    cards: Vec<Card>,
}

impl View for Hand {
    type V = Seq<Card>;

    closed spec fn view(&self) -> Seq<Card> {
        self.cards@
    }
}

impl Hand {
    /// An empty hand.
    pub fn new() -> (hand: Hand)
        ensures
            hand@ == Seq::<Card>::empty(),
    {
        Hand { cards: Vec::new() }
    }

    /// A hand holding the given cards in the given order.
    pub fn from_cards(cards: Vec<Card>) -> (hand: Hand)
        ensures
            hand@ == cards@,
    {
        Hand { cards }
    }

    /// Adds a card at the end of the hand.
    pub fn push(&mut self, card: Card)
        ensures
            final(self)@ == old(self)@.push(card),
    {
        self.cards.push(card);
    }

    /// The cards in the order they were received.
    pub fn cards(&self) -> (cards: &[Card])
        ensures
            cards@ == self@,
    {
        self.cards.as_slice()
    }

    /// Number of cards in the hand.
    pub fn len(&self) -> (len: usize)
        ensures
            len == self@.len(),
    {
        self.cards.len()
    }

    /// The card at a position of the hand.
    pub fn card(&self, index: usize) -> (card: Card)
        requires
            index < self@.len(),
        ensures
            card == self@[index as int],
    {
        self.cards[index]
    }

    /// A hand holding the same cards.
    pub fn duplicate(&self) -> (copy: Hand)
        ensures
            copy@ == self@,
    {
        let mut cards: Vec<Card> = Vec::new();
        let mut i: usize = 0;
        while i < self.cards.len()
            invariant
                i <= self.cards@.len(),
                cards@ == self.cards@.subrange(0, i as int),
            decreases self.cards@.len() - i,
        {
            cards.push(self.cards[i]);
            i = i + 1;
            assert(cards@ =~= self.cards@.subrange(0, i as int));
        }
        assert(self.cards@.subrange(0, i as int) =~= self.cards@);
        Hand { cards }
    }

    /// The best total of the hand: every Ace counts one, and one Ace counts
    /// eleven when that keeps the total at twenty-one or below.
    pub fn value(&self) -> (value: HandValue)
        ensures
            value == value_of(self@),
    {
        let mut total: u16 = 0;
        let mut ace = false;
        let mut i: usize = 0;
        while i < self.cards.len()
            invariant
                i <= self.cards@.len(),
                total == capped_hard_total(self.cards@.subrange(0, i as int)),
                ace == has_ace(self.cards@.subrange(0, i as int)),
            decreases self.cards@.len() - i,
        {
            let card = self.cards[i];
            let points = card.rank().blackjack_value();
            proof {
                let prefix = self.cards@.subrange(0, i as int);
                let next = self.cards@.subrange(0, i + 1);
                assert(next =~= prefix.push(card));
                lemma_hard_total_push(prefix, card);
                if has_ace(next) {
                    let k = choose|k: int| 0 <= k < next.len() && #[trigger] next[k].rank() == Rank::Ace;
                    if k < prefix.len() {
                        assert(prefix[k] == next[k]);
                    }
                }
                if has_ace(prefix) {
                    let k = choose|k: int| 0 <= k < prefix.len() && #[trigger] prefix[k].rank() == Rank::Ace;
                    assert(next[k] == prefix[k]);
                }
                if card.rank() == Rank::Ace {
                    assert(next[i as int] == card);
                }
            }
            total = total.saturating_add(points as u16);
            ace = ace || card.rank() == Rank::Ace;
            i = i + 1;
        }
        proof {
            assert(self.cards@.subrange(0, i as int) =~= self.cards@);
        }
        let is_soft = ace && total <= 11;
        if is_soft {
            total = total + 10;
        }
        HandValue { total, is_soft }
    }

    /// Whether the hand exceeds twenty-one.
    pub fn is_bust(&self) -> (bust: bool)
        ensures
            bust == is_bust_cards(self@),
    {
        self.value().total > 21
    }

    /// Whether the hand holds exactly two cards totalling twenty-one.
    pub fn is_two_card_twenty_one(&self) -> (result: bool)
        ensures
            result == is_two_card_21(self@),
    {
        self.cards.len() == 2 && self.value().total == 21
    }

    /// The shared point value of a two-card hand whose cards are worth the
    /// same; `None` for any other hand.
    pub fn split_value(&self) -> (value: Option<u8>)
        ensures
            value == split_value_of(self@),
    {
        if self.cards.len() == 2 {
            let first = self.cards[0].rank().blackjack_value();
            let second = self.cards[1].rank().blackjack_value();
            if first == second {
                return Some(first);
            }
        }
        None
    }
}

} // verus!
