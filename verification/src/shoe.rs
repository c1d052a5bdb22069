//! The shoe: deck construction, shuffling and drawing.

use rand::rngs::StdRng;
use rand::seq::SliceRandom;
use rand::SeedableRng;
use vstd::prelude::*;

use crate::card::{card_of, Card, Rank, Suit};
use crate::money::{decimal_text, push_decimal};

verus! {

broadcast use Card::lemma_card_of;

#[verifier::external_type_specification]
#[verifier::external_body]
pub struct ExStdRng(StdRng);

/// Where the seed of the game's random generator came from.
#[derive(Debug, Clone, Copy, PartialEq, Eq, Structural)]
pub enum EntropySource {
    DevRandom,
    System,
}

/// Calls `rand::SeedableRng::from_seed` for `StdRng`: the generator keyed by
/// the 32 seed bytes. Nothing is stated of the generator, whose state Verus
/// does not see; the call does not fail.
#[verifier::external_body]
fn generator_from_seed(seed: [u8; 32]) -> (rng: StdRng) {
    StdRng::from_seed(seed)
}

/// The game's generator from the primary entropy source: when the 32 seed
/// bytes could be read, the generator keyed by them, marked as seeded from
/// `/dev/random`; when they could not, nothing, and the caller falls back to
/// the system generator.
pub fn primary_generator(seed: Option<[u8; 32]>) -> (result: Option<(StdRng, EntropySource)>)
    ensures
        result is Some <==> seed is Some,
        result matches Some((_, source)) ==> source == EntropySource::DevRandom,
{
    match seed {
        Some(bytes) => Some((generator_from_seed(bytes), EntropySource::DevRandom)),
        None => None,
    }
}

/// Failures of shoe construction and drawing.
#[derive(Debug, Clone, Copy, PartialEq, Eq, Structural)]
pub enum ShoeError {
    InvalidDeckCount(u8),
    Exhausted,
    InsufficientCards { requested: usize, remaining: usize },
}

impl ShoeError {
    /// The message the error is reported with.
    pub open spec fn text(self) -> Seq<char> {
        match self {
            ShoeError::InvalidDeckCount(count) => "deck count must be between 1 and 8, got "@ + decimal_text(
                count as nat,
            ),
            ShoeError::Exhausted => "the shoe is exhausted"@,
            ShoeError::InsufficientCards { requested, remaining } => "cannot draw "@ + decimal_text(
                requested as nat,
            ) + " cards from a shoe with "@ + decimal_text(remaining as nat) + " remaining"@,
        }
    }

    /// The message the error is reported with, such as
    /// `the shoe is exhausted`.
    pub fn to_string(&self) -> (text: String)
        ensures
            text@ == self.text(),
    {
        match self {
            ShoeError::InvalidDeckCount(count) => {
                let mut text = String::from_str("deck count must be between 1 and 8, got ");
                push_decimal(&mut text, *count as u64);
                text
            },
            ShoeError::Exhausted => String::from_str("the shoe is exhausted"),
            ShoeError::InsufficientCards { requested, remaining } => {
                let mut text = String::from_str("cannot draw ");
                push_decimal(&mut text, *requested as u64);
                text.append(" cards from a shoe with ");
                push_decimal(&mut text, *remaining as u64);
                text.append(" remaining");
                text
            },
        }
    }
}

/// Number of cards in one deck.
pub const DECK_SIZE: usize = 52;

/// The suit of the `index`-th group of thirteen cards of a fresh deck.
pub open spec fn suit_at(index: int) -> Suit {
    if index == 0 {
        Suit::Clubs
    } else if index == 1 {
        Suit::Diamonds
    } else if index == 2 {
        Suit::Hearts
    } else {
        Suit::Spades
    }
}

/// The rank at position `index` within one suit of a fresh deck.
pub open spec fn rank_at(index: int) -> Rank {
    if index == 0 {
        Rank::Ace
    } else if index == 1 {
        Rank::Two
    } else if index == 2 {
        Rank::Three
    } else if index == 3 {
        Rank::Four
    } else if index == 4 {
        Rank::Five
    } else if index == 5 {
        Rank::Six
    } else if index == 6 {
        Rank::Seven
    } else if index == 7 {
        Rank::Eight
    } else if index == 8 {
        Rank::Nine
    } else if index == 9 {
        Rank::Ten
    } else if index == 10 {
        Rank::Jack
    } else if index == 11 {
        Rank::Queen
    } else {
        Rank::King
    }
}

/// The card at position `index` of unshuffled decks laid one after another:
/// each deck holds Clubs, Diamonds, Hearts and Spades in turn, each suit
/// running Ace through King.
pub open spec fn fresh_card(index: int) -> Card {
    card_of(rank_at(index % 13), suit_at((index / 13) % 4))
}

/// `deck_count` unshuffled decks, one after another.
pub open spec fn standard_shoe(deck_count: nat) -> Seq<Card> {
    Seq::new(deck_count * 52, |index: int| fresh_card(index))
}

/// The `count` cards a draw takes from the top of `cards`, in draw order.
pub open spec fn top_cards(cards: Seq<Card>, count: int) -> Seq<Card> {
    cards.subrange(cards.len() - count, cards.len() as int).reverse()
}

fn suit_from_index(index: usize) -> (suit: Suit)
    requires
        index < 4,
    ensures
        suit == suit_at(index as int),
{
    if index == 0 {
        Suit::Clubs
    } else if index == 1 {
        Suit::Diamonds
    } else if index == 2 {
        Suit::Hearts
    } else {
        Suit::Spades
    }
}

fn rank_from_index(index: usize) -> (rank: Rank)
    requires
        index < 13,
    ensures
        rank == rank_at(index as int),
{
    if index == 0 {
        Rank::Ace
    } else if index == 1 {
        Rank::Two
    } else if index == 2 {
        Rank::Three
    } else if index == 3 {
        Rank::Four
    } else if index == 4 {
        Rank::Five
    } else if index == 5 {
        Rank::Six
    } else if index == 6 {
        Rank::Seven
    } else if index == 7 {
        Rank::Eight
    } else if index == 8 {
        Rank::Nine
    } else if index == 9 {
        Rank::Ten
    } else if index == 10 {
        Rank::Jack
    } else if index == 11 {
        Rank::Queen
    } else {
        Rank::King
    }
}

/// Calls `rand::seq::SliceRandom::shuffle` on the cards. The crate's
/// Fisher-Yates loop only swaps elements, so the outcome is a permutation of
/// the input; which permutation depends on the generator's state and is not
/// stated.
#[verifier::external_body]
fn shuffle_cards(cards: &mut Vec<Card>, rng: &mut StdRng)
    ensures
        final(cards)@.len() == old(cards)@.len(),
        final(cards)@.to_multiset() == old(cards)@.to_multiset(),
{
    cards.shuffle(rng);
}

/// The cards of `deck_count` decks in fresh order, decks one after another.
fn fresh_cards(deck_count: u8) -> (cards: Vec<Card>)
    requires
        1 <= deck_count <= 8,
    ensures
        cards@ == standard_shoe(deck_count as nat),
{
    let total: usize = (deck_count as usize) * DECK_SIZE;
    let mut cards: Vec<Card> = Vec::new();
    let mut index: usize = 0;
    while index < total
        invariant
            total == deck_count as nat * 52,
            index <= total,
            cards@ =~= Seq::new(index as nat, |i: int| fresh_card(i)),
        decreases total - index,
    {
        let card = Card::new(rank_from_index(index % 13), suit_from_index((index / 13) % 4));
        cards.push(card);
        index = index + 1;
    }
    cards
}

/// A stack of cards drawn from the top.
#[derive(Debug, Clone, PartialEq, Eq)]
pub struct Shoe {
    cards: Vec<Card>,
}

impl View for Shoe {
    type V = Seq<Card>;

    /// The cards from the bottom of the shoe to its top; the last is drawn
    /// first.
    closed spec fn view(&self) -> Seq<Card> {
        self.cards@
    }
}

impl Shoe {
    /// A freshly shuffled shoe of `deck_count` decks; `InvalidDeckCount`
    /// exactly when the count lies outside one through eight. Whatever the
    /// generator yields, the shoe holds exactly the cards of `deck_count`
    /// standard decks.
    pub fn shuffled(deck_count: u8, rng: &mut StdRng) -> (result: Result<Shoe, ShoeError>)
        ensures
            !(1 <= deck_count <= 8) ==> result == Err::<Shoe, ShoeError>(ShoeError::InvalidDeckCount(deck_count)),
            1 <= deck_count <= 8 ==> result is Ok,
            result matches Ok(shoe) ==> shoe@.len() == deck_count as nat * 52
                && shoe@.to_multiset() == standard_shoe(deck_count as nat).to_multiset(),
    {
        if deck_count < 1 || deck_count > 8 {
            return Err(ShoeError::InvalidDeckCount(deck_count));
        }
        let mut cards = fresh_cards(deck_count);
        shuffle_cards(&mut cards, rng);
        Ok(Shoe { cards })
    }

    /// A shoe that deals the given cards in the given order.
    pub fn ordered(cards_in_draw_order: Vec<Card>) -> (shoe: Shoe)
        ensures
            shoe@ == cards_in_draw_order@.reverse(),
    {
        let mut cards: Vec<Card> = Vec::new();
        let mut index: usize = cards_in_draw_order.len();
        while index > 0
            invariant
                index <= cards_in_draw_order@.len(),
                cards@ =~= cards_in_draw_order@.subrange(index as int, cards_in_draw_order@.len() as int).reverse(),
            decreases index,
        {
            index = index - 1;
            cards.push(cards_in_draw_order[index]);
        }
        Shoe { cards }
    }

    /// Takes the top card; `Exhausted` and no change when the shoe is empty.
    pub fn draw(&mut self) -> (result: Result<Card, ShoeError>)
        ensures
            old(self)@.len() == 0 ==> result == Err::<Card, ShoeError>(ShoeError::Exhausted) && final(self)@ == old(self)@,
            old(self)@.len() > 0 ==> result == Ok::<Card, ShoeError>(old(self)@.last()) && final(self)@ == old(self)@.drop_last(),
    {
        match self.cards.pop() {
            Some(card) => Ok(card),
            None => Err(ShoeError::Exhausted),
        }
    }

    /// Takes the top `count` cards in draw order; when fewer remain, fails
    /// with `InsufficientCards` and leaves the shoe unchanged.
    pub fn draw_many(&mut self, count: usize) -> (result: Result<Vec<Card>, ShoeError>)
        ensures
            count > old(self)@.len() ==> result == Err::<Vec<Card>, ShoeError>(
                ShoeError::InsufficientCards { requested: count, remaining: old(self)@.len() as usize },
            ) && final(self)@ == old(self)@,
            count <= old(self)@.len() ==> (result matches Ok(cards) && cards@ == top_cards(old(self)@, count as int)
                && final(self)@ == old(self)@.subrange(0, old(self)@.len() - count)),
    {
        if count > self.cards.len() {
            return Err(ShoeError::InsufficientCards { requested: count, remaining: self.cards.len() });
        }
        let ghost start = self.cards@;
        let mut drawn: Vec<Card> = Vec::new();
        let mut taken: usize = 0;
        while taken < count
            invariant
                count <= start.len(),
                taken <= count,
                self.cards@ =~= start.subrange(0, start.len() - taken),
                drawn@ =~= top_cards(start, taken as int),
            decreases count - taken,
        {
            let card = self.cards.pop().unwrap();
            drawn.push(card);
            taken = taken + 1;
        }
        Ok(drawn)
    }

    /// A shoe holding the same cards in the same order.
    pub fn duplicate(&self) -> (copy: Shoe)
        ensures
            copy@ == self@,
    {
        let mut cards: Vec<Card> = Vec::new();
        let mut index: usize = 0;
        while index < self.cards.len()
            invariant
                index <= self.cards@.len(),
                cards@ =~= self.cards@.subrange(0, index as int),
            decreases self.cards@.len() - index,
        {
            cards.push(self.cards[index]);
            index = index + 1;
        }
        Shoe { cards }
    }

    /// The cards from the bottom of the shoe to its top.
    pub fn cards(&self) -> (cards: &[Card])
        ensures
            cards@ == self@,
    {
        self.cards.as_slice()
    }

    /// Number of cards left.
    pub fn len(&self) -> (len: usize)
        ensures
            len == self@.len(),
    {
        self.cards.len()
    }

    /// Whether no card is left.
    pub fn is_empty(&self) -> (empty: bool)
        ensures
            empty == (self@.len() == 0),
    {
        self.cards.len() == 0
    }
}

} // verus!
