//! One round of blackjack: the deal, player actions, insurance, the dealer's
//! play and settlement.

use vstd::prelude::*;

use crate::card::Card;
use crate::hand::{best_total, is_bust_cards, is_two_card_21, split_value_of, value_of, Hand};
use crate::money::{chips_text, Chips, MoneyError};
use crate::rules::{BlackjackPayout, Soft17Rule, TableRules, MAXIMUM_HANDS};
use crate::shoe::{top_cards, Shoe, ShoeError};

verus! {

broadcast use crate::money::group_chips;

/// A player's decision on the active hand.
#[derive(Debug, Clone, Copy, PartialEq, Eq, Structural)]
pub enum PlayerAction {
    Hit,
    Stand,
    Double,
    Split,
}

/// The stage a round is in.
#[derive(Debug, Clone, Copy, PartialEq, Eq, Structural)]
pub enum RoundPhase {
    InsuranceOffer,
    PlayerTurns,
    DealerTurn,
    Settled,
}

/// The state of one player hand.
#[derive(Debug, Clone, Copy, PartialEq, Eq, Structural)]
pub enum HandStatus {
    Active,
    Standing,
    Busted,
}

/// How a player hand came about: the initial deal, a split, or a split of
/// Aces.
#[derive(Debug, Clone, Copy, PartialEq, Eq, Structural)]
pub enum HandOrigin {
    Initial,
    Split,
    SplitAces,
}

/// The result of one player hand against the dealer.
#[derive(Debug, Clone, Copy, PartialEq, Eq, Structural)]
pub enum RoundOutcome {
    Bust,
    Loss,
    Push,
    Win,
    Blackjack,
}

/// Failures of round operations.
#[derive(Debug, Clone, Copy, PartialEq, Eq, Structural)]
pub enum RoundError {
    InvalidDeal,
    InvalidPhase(RoundPhase),
    IllegalAction(PlayerAction),
    InvalidInsurance { maximum: Chips, attempted: Chips },
    Shoe(ShoeError),
    Money(MoneyError),
}

impl PlayerAction {
    /// The name of the action as the program spells it.
    pub open spec fn name(self) -> Seq<char> {
        match self {
            PlayerAction::Hit => "Hit"@,
            PlayerAction::Stand => "Stand"@,
            PlayerAction::Double => "Double"@,
            PlayerAction::Split => "Split"@,
        }
    }

    /// The name of the action, such as `Double`.
    pub fn name_str(self) -> (name: &'static str)
        ensures
            name@ == self.name(),
    {
        match self {
            PlayerAction::Hit => "Hit",
            PlayerAction::Stand => "Stand",
            PlayerAction::Double => "Double",
            PlayerAction::Split => "Split",
        }
    }
}

impl RoundPhase {
    /// The name of the phase as the program spells it.
    pub open spec fn name(self) -> Seq<char> {
        match self {
            RoundPhase::InsuranceOffer => "InsuranceOffer"@,
            RoundPhase::PlayerTurns => "PlayerTurns"@,
            RoundPhase::DealerTurn => "DealerTurn"@,
            RoundPhase::Settled => "Settled"@,
        }
    }

    /// The name of the phase, such as `PlayerTurns`.
    pub fn name_str(self) -> (name: &'static str)
        ensures
            name@ == self.name(),
    {
        match self {
            RoundPhase::InsuranceOffer => "InsuranceOffer",
            RoundPhase::PlayerTurns => "PlayerTurns",
            RoundPhase::DealerTurn => "DealerTurn",
            RoundPhase::Settled => "Settled",
        }
    }
}

impl RoundError {
    /// The message the error is reported with.
    pub open spec fn text(self) -> Seq<char> {
        match self {
            RoundError::InvalidDeal => "the initial deal was incomplete"@,
            RoundError::InvalidPhase(phase) => "operation is invalid during "@ + phase.name(),
            RoundError::IllegalAction(action) => "action "@ + action.name() + " is not legal"@,
            RoundError::InvalidInsurance { maximum, attempted } => "insurance wager "@ + chips_text(attempted@)
                + " exceeds the maximum of "@ + chips_text(maximum@),
            RoundError::Shoe(error) => "shoe error: "@ + error.text(),
            RoundError::Money(error) => "money error: "@ + error.text(),
        }
    }

    /// The message the error is reported with, such as
    /// `action Split is not legal`.
    pub fn to_string(&self) -> (text: String)
        ensures
            text@ == self.text(),
    {
        match self {
            RoundError::InvalidDeal => String::from_str("the initial deal was incomplete"),
            RoundError::InvalidPhase(phase) => {
                let mut text = String::from_str("operation is invalid during ");
                text.append(phase.name_str());
                text
            },
            RoundError::IllegalAction(action) => {
                let mut text = String::from_str("action ");
                text.append(action.name_str());
                text.append(" is not legal");
                text
            },
            RoundError::InvalidInsurance { maximum, attempted } => {
                let mut text = String::from_str("insurance wager ");
                text.append(attempted.to_string().as_str());
                text.append(" exceeds the maximum of ");
                text.append(maximum.to_string().as_str());
                text
            },
            RoundError::Shoe(error) => {
                let mut text = String::from_str("shoe error: ");
                text.append(error.to_string().as_str());
                text
            },
            RoundError::Money(error) => {
                let mut text = String::from_str("money error: ");
                text.append(error.to_string().as_str());
                text
            },
        }
    }
}

impl From<ShoeError> for RoundError {
    fn from(error: ShoeError) -> (converted: Self) {
        RoundError::Shoe(error)
    }
}

impl vstd::std_specs::convert::FromSpecImpl<ShoeError> for RoundError {
    open spec fn obeys_from_spec() -> bool {
        true
    }

    open spec fn from_spec(error: ShoeError) -> Self {
        RoundError::Shoe(error)
    }
}

impl From<MoneyError> for RoundError {
    fn from(error: MoneyError) -> (converted: Self) {
        RoundError::Money(error)
    }
}

impl vstd::std_specs::convert::FromSpecImpl<MoneyError> for RoundError {
    open spec fn obeys_from_spec() -> bool {
        true
    }

    open spec fn from_spec(error: MoneyError) -> Self {
        RoundError::Money(error)
    }
}

/// The settled result of one player hand.
#[derive(Debug, Clone, Copy, PartialEq, Eq, Structural)]
pub struct HandSettlement {
    outcome: RoundOutcome,
    wager: Chips,
    credit: Chips,
}

/// The abstract content of a hand settlement: amounts in chips.
pub struct HandResult {
    pub outcome: RoundOutcome,
    pub wager: u64,
    pub credit: u64,
}

impl View for HandSettlement {
    type V = HandResult;

    closed spec fn view(&self) -> HandResult {
        HandResult { outcome: self.outcome, wager: self.wager@, credit: self.credit@ }
    }
}

impl HandSettlement {
    pub fn outcome(&self) -> (outcome: RoundOutcome)
        ensures
            outcome == self@.outcome,
    {
        self.outcome
    }

    pub fn wager(&self) -> (wager: Chips)
        ensures
            wager@ == self@.wager,
    {
        self.wager
    }

    pub fn credit(&self) -> (credit: Chips)
        ensures
            credit@ == self@.credit,
    {
        self.credit
    }
}

/// The settled result of a round.
#[derive(Debug, Clone, PartialEq, Eq)]
pub struct RoundSettlement {
    hand_results: Vec<HandSettlement>,
    main_credit: Chips,
    insurance_wager: Chips,
    insurance_credit: Chips,
    total_credit: Chips,
}

/// The abstract content of a round settlement: amounts in chips.
pub struct SettlementView {
    pub results: Seq<HandResult>,
    pub main_credit: u64,
    pub insurance_wager: u64,
    pub insurance_credit: u64,
    pub total_credit: u64,
}

impl View for RoundSettlement {
    type V = SettlementView;

    closed spec fn view(&self) -> SettlementView {
        SettlementView {
            results: self.hand_results@.map_values(|r: HandSettlement| r@),
            main_credit: self.main_credit@,
            insurance_wager: self.insurance_wager@,
            insurance_credit: self.insurance_credit@,
            total_credit: self.total_credit@,
        }
    }
}

impl RoundSettlement {
    /// The result of each player hand, in hand order.
    pub fn hand_results(&self) -> (results: &[HandSettlement])
        ensures
            results@.map_values(|r: HandSettlement| r@) == self@.results,
    {
        self.hand_results.as_slice()
    }

    pub fn main_credit(&self) -> (credit: Chips)
        ensures
            credit@ == self@.main_credit,
    {
        self.main_credit
    }

    pub fn insurance_wager(&self) -> (wager: Chips)
        ensures
            wager@ == self@.insurance_wager,
    {
        self.insurance_wager
    }

    pub fn insurance_credit(&self) -> (credit: Chips)
        ensures
            credit@ == self@.insurance_credit,
    {
        self.insurance_credit
    }

    pub fn total_credit(&self) -> (credit: Chips)
        ensures
            credit@ == self@.total_credit,
    {
        self.total_credit
    }
}

/// One of the player's hands with its wager.
#[derive(Debug, Clone, PartialEq, Eq)]
pub struct PlayerHand {
    hand: Hand,
    wager: Chips,
    status: HandStatus,
    origin: HandOrigin,
}

/// The abstract content of a player hand.
pub struct PlayerHandView {
    pub cards: Seq<Card>,
    pub wager: u64,
    pub status: HandStatus,
    pub origin: HandOrigin,
}

impl View for PlayerHand {
    type V = PlayerHandView;

    closed spec fn view(&self) -> PlayerHandView {
        PlayerHandView { cards: self.hand@, wager: self.wager@, status: self.status, origin: self.origin }
    }
}

/// A natural is a two-card twenty-one from the initial deal; a split hand
/// never is one.
pub open spec fn is_natural_hand(hand: PlayerHandView) -> bool {
    hand.origin == HandOrigin::Initial && is_two_card_21(hand.cards)
}

impl PlayerHand {
    /// The cards of the hand.
    pub fn hand(&self) -> (hand: &Hand)
        ensures
            hand@ == self@.cards,
    {
        &self.hand
    }

    pub fn wager(&self) -> (wager: Chips)
        ensures
            wager@ == self@.wager,
    {
        self.wager
    }

    pub fn status(&self) -> (status: HandStatus)
        ensures
            status == self@.status,
    {
        self.status
    }

    pub fn origin(&self) -> (origin: HandOrigin)
        ensures
            origin == self@.origin,
    {
        self.origin
    }

    /// Whether the hand is a natural blackjack.
    pub fn is_natural(&self) -> (natural: bool)
        ensures
            natural == is_natural_hand(self@),
    {
        self.origin == HandOrigin::Initial && self.hand.is_two_card_twenty_one()
    }
}

/// The abstract state of a round.
pub struct RoundView {
    pub rules: TableRules,
    pub hands: Seq<PlayerHandView>,
    pub dealer: Seq<Card>,
    pub phase: RoundPhase,
    pub active: Option<usize>,
    pub original_wager: u64,
    pub insurance_wager: u64,
    pub settlement: Option<SettlementView>,
}

/// A round between the player and the dealer.
#[derive(Debug, Clone, PartialEq, Eq)]
pub struct Round {
    rules: TableRules,
    player_hands: Vec<PlayerHand>,
    dealer: Hand,
    phase: RoundPhase,
    active_hand: Option<usize>,
    original_wager: Chips,
    insurance_wager: Chips,
    settlement: Option<RoundSettlement>,
}

impl View for Round {
    type V = RoundView;

    closed spec fn view(&self) -> RoundView {
        RoundView {
            rules: self.rules,
            hands: self.player_hands@.map_values(|h: PlayerHand| h@),
            dealer: self.dealer@,
            phase: self.phase,
            active: self.active_hand,
            original_wager: self.original_wager@,
            insurance_wager: self.insurance_wager@,
            settlement: match self.settlement {
                Some(s) => Some(s@),
                None => None,
            },
        }
    }
}

// ---------------------------------------------------------------------------
// Settlement rules
// ---------------------------------------------------------------------------

/// The outcome of a player hand against the dealer's final cards: a bust
/// loses; a dealer natural beats everything but a player natural, which
/// pushes; a player natural otherwise pays as blackjack; a dealer bust loses
/// to every live hand; otherwise the higher total wins and equal totals push.
pub open spec fn outcome_for(hand: PlayerHandView, dealer: Seq<Card>) -> RoundOutcome {
    if is_bust_cards(hand.cards) {
        RoundOutcome::Bust
    } else if is_two_card_21(dealer) {
        if is_natural_hand(hand) {
            RoundOutcome::Push
        } else {
            RoundOutcome::Loss
        }
    } else if is_natural_hand(hand) {
        RoundOutcome::Blackjack
    } else if best_total(dealer) > 21 {
        RoundOutcome::Win
    } else if best_total(hand.cards) < best_total(dealer) {
        RoundOutcome::Loss
    } else if best_total(hand.cards) == best_total(dealer) {
        RoundOutcome::Push
    } else {
        RoundOutcome::Win
    }
}

/// The chips returned for a settled hand, stake included: nothing for a bust
/// or loss, the stake for a push, twice the stake for a win, and the stake
/// plus the table's natural profit for a blackjack; an error when the amount
/// cannot be formed exactly in a `u64`.
pub open spec fn credit_for(outcome: RoundOutcome, wager: u64, payout: BlackjackPayout) -> Result<u64, MoneyError> {
    match outcome {
        RoundOutcome::Bust | RoundOutcome::Loss => Ok(0),
        RoundOutcome::Push => Ok(wager),
        RoundOutcome::Win => {
            if wager * 2 > u64::MAX {
                Err(MoneyError::Overflow)
            } else {
                Ok((wager * 2) as u64)
            }
        },
        RoundOutcome::Blackjack => {
            match Chips::ratio_result(Chips::spec_new(wager), payout.ratio().0, payout.ratio().1) {
                Err(e) => Err(e),
                Ok(profit) => {
                    if wager + profit@ > u64::MAX {
                        Err(MoneyError::Overflow)
                    } else {
                        Ok((wager + profit@) as u64)
                    }
                },
            }
        },
    }
}

/// Settles hands `index..` in order after `results` and `main` were
/// accumulated; the first failing credit or sum is the error.
pub open spec fn settle_from(
    hands: Seq<PlayerHandView>,
    dealer: Seq<Card>,
    payout: BlackjackPayout,
    index: int,
    results: Seq<HandResult>,
    main: u64,
) -> Result<(Seq<HandResult>, u64), MoneyError>
    decreases hands.len() - index,
{
    if index < 0 || index >= hands.len() {
        Ok((results, main))
    } else {
        let hand = hands[index];
        let outcome = outcome_for(hand, dealer);
        match credit_for(outcome, hand.wager, payout) {
            Err(e) => Err(e),
            Ok(credit) => {
                if main + credit > u64::MAX {
                    Err(MoneyError::Overflow)
                } else {
                    settle_from(
                        hands,
                        dealer,
                        payout,
                        index + 1,
                        results.push(HandResult { outcome, wager: hand.wager, credit }),
                        (main + credit) as u64,
                    )
                }
            },
        }
    }
}

/// Settling hands fails only on arithmetic: never for want of funds.
pub proof fn lemma_settle_from_error(
    hands: Seq<PlayerHandView>,
    dealer: Seq<Card>,
    payout: BlackjackPayout,
    index: int,
    results: Seq<HandResult>,
    main: u64,
)
    ensures
        settle_from(hands, dealer, payout, index, results, main) matches Err(e) ==> !(e is InsufficientFunds),
    decreases hands.len() - index,
{
    if 0 <= index < hands.len() {
        let hand = hands[index];
        let outcome = outcome_for(hand, dealer);
        if let Ok(credit) = credit_for(outcome, hand.wager, payout) {
            if main + credit <= u64::MAX {
                lemma_settle_from_error(
                    hands,
                    dealer,
                    payout,
                    index + 1,
                    results.push(HandResult { outcome, wager: hand.wager, credit }),
                    (main + credit) as u64,
                );
            }
        }
    }
}

/// The settlement of a round whose dealer holds `dealer`: every hand is
/// settled in order, and a dealer natural pays insurance at two to one plus
/// the stake.
pub open spec fn settlement_for(round: RoundView, dealer: Seq<Card>) -> Result<SettlementView, MoneyError> {
    match settle_from(round.hands, dealer, round.rules.blackjack_payout(), 0, Seq::empty(), 0) {
        Err(e) => Err(e),
        Ok((results, main)) => {
            let insurance_credit: int = if is_two_card_21(dealer) {
                round.insurance_wager * 3
            } else {
                0
            };
            if insurance_credit > u64::MAX {
                Err(MoneyError::Overflow)
            } else if main + insurance_credit > u64::MAX {
                Err(MoneyError::Overflow)
            } else {
                Ok(
                    SettlementView {
                        results,
                        main_credit: main,
                        insurance_wager: round.insurance_wager,
                        insurance_credit: insurance_credit as u64,
                        total_credit: (main + insurance_credit) as u64,
                    },
                )
            }
        },
    }
}

/// The round settled against `dealer`: the dealer's cards are kept, the
/// phase is `Settled`, no hand is active and the settlement is stored.
pub open spec fn settled_round(round: RoundView, dealer: Seq<Card>) -> Result<RoundView, RoundError> {
    match settlement_for(round, dealer) {
        Err(e) => Err(RoundError::Money(e)),
        Ok(settlement) => Ok(
            RoundView {
                dealer,
                phase: RoundPhase::Settled,
                active: None,
                settlement: Some(settlement),
                ..round
            },
        ),
    }
}

// ---------------------------------------------------------------------------
// The deal
// ---------------------------------------------------------------------------

/// The round dealt from four cards in draw order: the player receives the
/// first and third, the dealer the second (upcard) and fourth (hole card).
/// An Ace upcard offers insurance before the peek; a ten-valued upcard peeks
/// at once, and the round ends at once on a dealer natural behind it or on a
/// player natural when the dealer cannot hold one.
pub open spec fn dealt_round(wager: u64, rules: TableRules, cards: Seq<Card>) -> Result<RoundView, RoundError> {
    let player = seq![cards[0], cards[2]];
    let dealer = seq![cards[1], cards[3]];
    let player_natural = is_two_card_21(player);
    let dealer_natural = is_two_card_21(dealer);
    let upcard_value = cards[1].rank().points();
    let should_settle = upcard_value != 1 && ((upcard_value == 10 && dealer_natural) || player_natural);
    let status = if player_natural || should_settle {
        HandStatus::Standing
    } else {
        HandStatus::Active
    };
    let round = RoundView {
        rules,
        hands: seq![PlayerHandView { cards: player, wager, status, origin: HandOrigin::Initial }],
        dealer,
        phase: if upcard_value == 1 {
            RoundPhase::InsuranceOffer
        } else {
            RoundPhase::PlayerTurns
        },
        active: if status == HandStatus::Active {
            Some(0usize)
        } else {
            None
        },
        original_wager: wager,
        insurance_wager: 0,
        settlement: None,
    };
    if should_settle {
        settled_round(round, dealer)
    } else {
        Ok(round)
    }
}

// ---------------------------------------------------------------------------
// Player actions
// ---------------------------------------------------------------------------

/// Splitting hand `index` needs room for one more hand, a bankroll covering
/// its wager, and two cards of equal point value.
pub open spec fn can_split_at(round: RoundView, index: int, bankroll: u64) -> bool {
    &&& round.hands.len() < MAXIMUM_HANDS
    &&& bankroll >= round.hands[index].wager
    &&& split_value_of(round.hands[index].cards) is Some
}

/// The actions open on the active hand, in the order they are offered.
/// Nothing is open outside the player's turns. A hand from split Aces may
/// only be split again. Otherwise hit and stand are open, doubling on a
/// two-card hand the bankroll can match, and splitting when allowed.
pub open spec fn legal_actions_for(round: RoundView, bankroll: u64) -> Seq<PlayerAction> {
    match round.active {
        None => Seq::empty(),
        Some(i) => {
            if round.phase != RoundPhase::PlayerTurns {
                Seq::empty()
            } else {
                let hand = round.hands[i as int];
                let split: Seq<PlayerAction> = if can_split_at(round, i as int, bankroll) {
                    seq![PlayerAction::Split]
                } else {
                    Seq::empty()
                };
                if hand.origin == HandOrigin::SplitAces {
                    split
                } else {
                    let double: Seq<PlayerAction> = if hand.cards.len() == 2 && bankroll >= hand.wager {
                        seq![PlayerAction::Double]
                    } else {
                        Seq::empty()
                    };
                    seq![PlayerAction::Hit, PlayerAction::Stand] + double + split
                }
            }
        },
    }
}

/// The first hand at or after `start` that is still active.
pub open spec fn first_active_from(hands: Seq<PlayerHandView>, start: int) -> Option<usize>
    decreases hands.len() - start,
{
    if start < 0 || start >= hands.len() {
        None
    } else if hands[start].status == HandStatus::Active {
        Some(start as usize)
    } else {
        first_active_from(hands, start + 1)
    }
}

/// What `first_active_from` finds is an active hand in range.
pub proof fn lemma_first_active_from(hands: Seq<PlayerHandView>, start: int)
    requires
        0 <= start,
        hands.len() <= usize::MAX,
    ensures
        first_active_from(hands, start) matches Some(j) ==> start <= j < hands.len()
            && hands[j as int].status == HandStatus::Active && forall|k: int|
            start <= k < j ==> #[trigger] hands[k].status != HandStatus::Active,
        first_active_from(hands, start) is None ==> forall|k: int| start <= k < hands.len() ==> #[trigger] hands[k].status != HandStatus::Active,
    decreases hands.len() - start,
{
    if start < hands.len() && hands[start].status != HandStatus::Active {
        lemma_first_active_from(hands, start + 1);
        assert forall|k: int| start <= k < hands.len() && first_active_from(hands, start) is None implies #[trigger] hands[k].status != HandStatus::Active by {
            if k > start {
            }
        }
    }
}

/// The round with hand `index` replaced.
pub open spec fn with_hand(round: RoundView, index: int, hand: PlayerHandView) -> RoundView {
    RoundView { hands: round.hands.update(index, hand), ..round }
}

/// Moves play past hand `index` to the next active hand; with none left the
/// dealer's turn begins.
pub open spec fn advance_after(round: RoundView, index: int) -> RoundView {
    let next = first_active_from(round.hands, index + 1);
    RoundView {
        active: next,
        phase: if next is None {
            RoundPhase::DealerTurn
        } else {
            round.phase
        },
        ..round
    }
}

/// Hit on one hand: the card joins it; it busts above twenty-one, stands on
/// twenty-one, and otherwise keeps its status.
pub open spec fn hit_hand(hand: PlayerHandView, card: Card) -> PlayerHandView {
    let cards = hand.cards.push(card);
    let status = if is_bust_cards(cards) {
        HandStatus::Busted
    } else if best_total(cards) == 21 {
        HandStatus::Standing
    } else {
        hand.status
    };
    PlayerHandView { cards, status, ..hand }
}

/// Hit: the card joins hand `index`; once the hand is no longer active, play
/// moves on.
pub open spec fn hit_round(round: RoundView, index: int, card: Card) -> RoundView {
    let updated = with_hand(round, index, hit_hand(round.hands[index], card));
    if hit_hand(round.hands[index], card).status != HandStatus::Active {
        advance_after(updated, index)
    } else {
        updated
    }
}

/// Stand: hand `index` is complete.
pub open spec fn stand_round(round: RoundView, index: int) -> RoundView {
    let hand = round.hands[index];
    advance_after(with_hand(round, index, PlayerHandView { status: HandStatus::Standing, ..hand }), index)
}

/// Double on one hand: its wager doubles, it takes exactly one card and is
/// complete.
pub open spec fn double_hand(hand: PlayerHandView, card: Card) -> PlayerHandView {
    let cards = hand.cards.push(card);
    let status = if is_bust_cards(cards) {
        HandStatus::Busted
    } else {
        HandStatus::Standing
    };
    PlayerHandView { cards, wager: (hand.wager * 2) as u64, status, ..hand }
}

/// Double: hand `index` doubles and play moves on.
pub open spec fn double_round(round: RoundView, index: int, card: Card) -> RoundView {
    advance_after(with_hand(round, index, double_hand(round.hands[index], card)), index)
}

/// One of the two hands a split makes: a split card and its new card. A
/// hand from split Aces stays in play only when it can be split again (it
/// holds two Aces); any other split hand stands on twenty-one.
pub open spec fn split_hand_for(card: Card, draw: Card, wager: u64, origin: HandOrigin) -> PlayerHandView {
    let cards = seq![card, draw];
    let status = if origin == HandOrigin::SplitAces || best_total(cards) == 21 {
        if origin == HandOrigin::SplitAces && split_value_of(cards) == Some(1u8) {
            HandStatus::Active
        } else {
            HandStatus::Standing
        }
    } else {
        HandStatus::Active
    };
    PlayerHandView { cards, wager, status, origin }
}

/// A hand from split Aces that cannot be split again stands.
pub open spec fn normalized_hand(hand: PlayerHandView, below_limit: bool, bankroll: u64) -> PlayerHandView {
    if hand.origin == HandOrigin::SplitAces && hand.status == HandStatus::Active && (!below_limit || bankroll
        < hand.wager || split_value_of(hand.cards) != Some(1u8)) {
        PlayerHandView { status: HandStatus::Standing, ..hand }
    } else {
        hand
    }
}

/// Every hand of `hands` normalized against the hand limit and the bankroll.
pub open spec fn normalized_hands(hands: Seq<PlayerHandView>, bankroll: u64) -> Seq<PlayerHandView> {
    Seq::new(hands.len(), |k: int| normalized_hand(hands[k], hands.len() < MAXIMUM_HANDS, bankroll))
}

/// Split: hand `index` becomes two hands, each keeping one card, drawing one
/// card and carrying the original wager; play resumes at the first active
/// hand from `index` on.
pub open spec fn split_round(round: RoundView, index: int, bankroll_after: u64, first: Card, second: Card) -> RoundView {
    let hand = round.hands[index];
    let origin = if split_value_of(hand.cards) == Some(1u8) {
        HandOrigin::SplitAces
    } else {
        HandOrigin::Split
    };
    let pair = seq![
        split_hand_for(hand.cards[0], first, hand.wager, origin),
        split_hand_for(hand.cards[1], second, hand.wager, origin),
    ];
    let spliced = round.hands.subrange(0, index) + pair + round.hands.subrange(index + 1, round.hands.len() as int);
    let hands = normalized_hands(spliced, bankroll_after);
    let active = first_active_from(hands, index);
    RoundView {
        hands,
        active,
        phase: if active is Some {
            RoundPhase::PlayerTurns
        } else {
            RoundPhase::DealerTurn
        },
        ..round
    }
}

/// The result of an action: the new round, bankroll and shoe, or the error.
/// An action outside `legal_actions_for` is refused. Hit and double take the
/// top card, split the top two; a shoe too short for the draw is an error,
/// as is a doubled wager beyond `u64::MAX`. Double and split take the hand's
/// wager from the bankroll.
pub open spec fn act_outcome(round: RoundView, action: PlayerAction, bankroll: u64, shoe: Seq<Card>) -> Result<
    (RoundView, u64, Seq<Card>),
    RoundError,
> {
    if !legal_actions_for(round, bankroll).contains(action) {
        Err(RoundError::IllegalAction(action))
    } else {
        let index = round.active->0 as int;
        let hand = round.hands[index];
        match action {
            PlayerAction::Hit => {
                if shoe.len() < 1 {
                    Err(RoundError::Shoe(ShoeError::InsufficientCards { requested: 1, remaining: shoe.len() as usize }))
                } else {
                    Ok((hit_round(round, index, shoe.last()), bankroll, shoe.drop_last()))
                }
            },
            PlayerAction::Stand => Ok((stand_round(round, index), bankroll, shoe)),
            PlayerAction::Double => {
                if hand.wager * 2 > u64::MAX {
                    Err(RoundError::Money(MoneyError::Overflow))
                } else if shoe.len() < 1 {
                    Err(RoundError::Shoe(ShoeError::InsufficientCards { requested: 1, remaining: shoe.len() as usize }))
                } else {
                    Ok((double_round(round, index, shoe.last()), (bankroll - hand.wager) as u64, shoe.drop_last()))
                }
            },
            PlayerAction::Split => {
                if shoe.len() < 2 {
                    Err(RoundError::Shoe(ShoeError::InsufficientCards { requested: 2, remaining: shoe.len() as usize }))
                } else {
                    let after = (bankroll - hand.wager) as u64;
                    Ok(
                        (
                            split_round(round, index, after, shoe.last(), shoe[shoe.len() - 2]),
                            after,
                            shoe.subrange(0, shoe.len() - 2),
                        ),
                    )
                }
            },
        }
    }
}

// ---------------------------------------------------------------------------
// Insurance and the dealer's play
// ---------------------------------------------------------------------------

/// The result of offering `amount` as insurance with `bankroll` available:
/// the error, the round and the bankroll afterwards. Insurance is taken only
/// while it is offered, from zero to half the original wager, and must be
/// covered by the bankroll. The dealer then peeks: a dealer natural, or a
/// player natural, settles the round at once; otherwise the player's turns
/// begin. A failure of that settlement leaves the stake taken.
pub open spec fn insurance_outcome(round: RoundView, amount: Chips, bankroll: Chips) -> (
    Result<(), RoundError>,
    RoundView,
    u64,
) {
    if round.phase != RoundPhase::InsuranceOffer {
        (Err(RoundError::InvalidPhase(round.phase)), round, bankroll@)
    } else {
        match Chips::ratio_result(Chips::spec_new(round.original_wager), 1, 2) {
            Err(e) => (Err(RoundError::Money(e)), round, bankroll@),
            Ok(maximum) => {
                if amount@ > maximum@ {
                    (Err(RoundError::InvalidInsurance { maximum, attempted: amount }), round, bankroll@)
                } else if amount@ > bankroll@ {
                    (
                        Err(RoundError::Money(MoneyError::InsufficientFunds { available: bankroll, required: amount })),
                        round,
                        bankroll@,
                    )
                } else {
                    let insured = RoundView { insurance_wager: amount@, ..round };
                    let remaining = (bankroll@ - amount@) as u64;
                    if is_two_card_21(round.dealer) || is_natural_hand(round.hands[0]) {
                        match settled_round(insured, insured.dealer) {
                            Ok(settled) => (Ok(()), settled, remaining),
                            Err(e) => (Err(e), insured, remaining),
                        }
                    } else {
                        (Ok(()), RoundView { phase: RoundPhase::PlayerTurns, ..insured }, remaining)
                    }
                }
            },
        }
    }
}

/// The dealer draws below seventeen and on a soft seventeen when the table
/// says so; it stands on hard seventeen and above.
pub open spec fn dealer_should_hit(cards: Seq<Card>, rule: Soft17Rule) -> bool {
    best_total(cards) < 17 || (best_total(cards) == 17 && crate::hand::is_soft_cards(cards) && rule
        == Soft17Rule::Hit)
}

/// The dealer's final cards and the shoe left after drawing from the top of
/// `shoe` while `dealer_should_hit`; `None` when the shoe runs out first.
pub open spec fn dealer_play(dealer: Seq<Card>, shoe: Seq<Card>, rule: Soft17Rule) -> Option<(Seq<Card>, Seq<Card>)>
    decreases shoe.len(),
{
    if !dealer_should_hit(dealer, rule) {
        Some((dealer, shoe))
    } else if shoe.len() == 0 {
        None
    } else {
        dealer_play(dealer.push(shoe.last()), shoe.drop_last(), rule)
    }
}

/// Whether some player hand has not busted.
pub open spec fn has_live_hand(hands: Seq<PlayerHandView>) -> bool {
    exists|k: int| 0 <= k < hands.len() && #[trigger] hands[k].status != HandStatus::Busted
}

/// The result of the dealer's turn: the settled round and the shoe left.
/// The dealer draws only when some player hand is live.
pub open spec fn dealer_turn_outcome(round: RoundView, shoe: Seq<Card>) -> Result<(RoundView, Seq<Card>), RoundError> {
    if round.phase != RoundPhase::DealerTurn {
        Err(RoundError::InvalidPhase(round.phase))
    } else {
        let drawn = if has_live_hand(round.hands) {
            dealer_play(round.dealer, shoe, round.rules.soft_17())
        } else {
            Some((round.dealer, shoe))
        };
        match drawn {
            None => Err(RoundError::Shoe(ShoeError::Exhausted)),
            Some((dealer, rest)) => match settled_round(round, dealer) {
                Err(e) => Err(e),
                Ok(settled) => Ok((settled, rest)),
            },
        }
    }
}

/// The round's internal consistency: one to four hands, a dealer holding at
/// least two cards, an active hand only while the player may act and only on
/// a hand that is still active, and a settlement only once settled.
pub open spec fn round_wf(round: RoundView) -> bool {
    &&& 1 <= round.hands.len() <= MAXIMUM_HANDS
    &&& round.dealer.len() >= 2
    &&& round.active matches Some(i) ==> {
        &&& i < round.hands.len()
        &&& round.hands[i as int].status == HandStatus::Active
        &&& (round.phase == RoundPhase::PlayerTurns || round.phase == RoundPhase::InsuranceOffer)
    }
    &&& round.phase == RoundPhase::PlayerTurns ==> round.active is Some
    &&& round.phase == RoundPhase::InsuranceOffer ==> round.hands.len() == 1 && (round.active is Some
        || is_natural_hand(round.hands[0]))
    &&& round.settlement is Some ==> round.phase == RoundPhase::Settled
    &&& forall|k: int| 0 <= k < round.hands.len() ==> (#[trigger] round.hands[k]).cards.len() >= 2
    &&& round.active matches Some(i) ==> forall|k: int|
        0 <= k < i ==> (#[trigger] round.hands[k]).status != HandStatus::Active
    &&& round.phase == RoundPhase::DealerTurn ==> forall|k: int|
        0 <= k < round.hands.len() ==> (#[trigger] round.hands[k]).status != HandStatus::Active
    &&& round.settlement matches Some(s) ==> settlement_for(round, round.dealer) == Ok::<SettlementView, MoneyError>(s)
}

/// Replacing the active hand keeps the round consistent, moving play on
/// when the new hand is no longer active.
proof fn lemma_update_active_hand_wf(round: RoundView, index: int, hand: PlayerHandView)
    requires
        round_wf(round),
        round.phase == RoundPhase::PlayerTurns,
        0 <= index < round.hands.len(),
        round.active == Some(index as usize),
        hand.cards.len() >= 2,
    ensures
        hand.status == HandStatus::Active ==> round_wf(with_hand(round, index, hand)),
        hand.status != HandStatus::Active ==> round_wf(advance_after(with_hand(round, index, hand), index)),
{
    let updated = with_hand(round, index, hand);
    lemma_first_active_from(updated.hands, index + 1);
    assert forall|k: int| 0 <= k < updated.hands.len() implies #[trigger] updated.hands[k] == (if k == index {
        hand
    } else {
        round.hands[k]
    }) by {}
}

/// A split keeps the round consistent.
proof fn lemma_split_round_wf(round: RoundView, index: int, after: u64, first: Card, second: Card, bankroll: u64)
    requires
        round_wf(round),
        round.phase == RoundPhase::PlayerTurns,
        0 <= index < round.hands.len(),
        round.active == Some(index as usize),
        can_split_at(round, index, bankroll),
    ensures
        round_wf(split_round(round, index, after, first, second)),
{
    let hand = round.hands[index];
    let origin = if split_value_of(hand.cards) == Some(1u8) {
        HandOrigin::SplitAces
    } else {
        HandOrigin::Split
    };
    let pair = seq![
        split_hand_for(hand.cards[0], first, hand.wager, origin),
        split_hand_for(hand.cards[1], second, hand.wager, origin),
    ];
    let spliced = round.hands.subrange(0, index) + pair + round.hands.subrange(index + 1, round.hands.len() as int);
    let hands = normalized_hands(spliced, after);
    lemma_first_active_from(hands, index);
    assert forall|k: int| 0 <= k < hands.len() implies (#[trigger] hands[k]).cards.len() >= 2 && (k < index
        ==> hands[k].status != HandStatus::Active) by {
        assert(hands[k] == normalized_hand(spliced[k], spliced.len() < MAXIMUM_HANDS, after));
        if k < index {
            assert(spliced[k] == round.hands[k]);
        } else if k == index {
            assert(spliced[k] == pair[0]);
        } else if k == index + 1 {
            assert(spliced[k] == pair[1]);
        } else {
            assert(spliced[k] == round.hands[k - 1]);
        }
    }
}

/// Every accepted action keeps the round consistent.
pub proof fn lemma_act_keeps_wf(round: RoundView, action: PlayerAction, bankroll: u64, shoe: Seq<Card>)
    requires
        round_wf(round),
        act_outcome(round, action, bankroll, shoe) is Ok,
    ensures
        round_wf(act_outcome(round, action, bankroll, shoe)->Ok_0.0),
{
    let index = round.active->0 as int;
    let hand = round.hands[index];
    match action {
        PlayerAction::Hit => lemma_update_active_hand_wf(round, index, hit_hand(hand, shoe.last())),
        PlayerAction::Stand => lemma_update_active_hand_wf(
            round,
            index,
            PlayerHandView { status: HandStatus::Standing, ..hand },
        ),
        PlayerAction::Double => lemma_update_active_hand_wf(round, index, double_hand(hand, shoe.last())),
        PlayerAction::Split => lemma_split_round_wf(
            round,
            index,
            (bankroll - hand.wager) as u64,
            shoe.last(),
            shoe[shoe.len() - 2],
            bankroll,
        ),
    }
}

impl Round {
    /// The round is internally consistent.
    pub open spec fn wf(&self) -> bool {
        round_wf(self@)
    }

    /// Draws four cards and deals them; fails with the shoe's error, drawing
    /// nothing, when fewer than four remain.
    pub fn deal(wager: Chips, rules: TableRules, shoe: &mut Shoe) -> (result: Result<Round, RoundError>)
        ensures
            old(shoe)@.len() < 4 ==> result == Err::<Round, RoundError>(
                RoundError::Shoe(ShoeError::InsufficientCards { requested: 4, remaining: old(shoe)@.len() as usize }),
            ) && final(shoe)@ == old(shoe)@,
            old(shoe)@.len() >= 4 ==> final(shoe)@ == old(shoe)@.subrange(0, old(shoe)@.len() - 4) && match dealt_round(
                wager@,
                rules,
                top_cards(old(shoe)@, 4),
            ) {
                Ok(view) => result matches Ok(round) && round@ == view && round.wf(),
                Err(e) => result == Err::<Round, RoundError>(e),
            },
    {
        let cards = match shoe.draw_many(4) {
            Ok(cards) => cards,
            Err(error) => return Err(RoundError::Shoe(error)),
        };
        let ghost drawn = cards@;
        let player_first = cards[0];
        let dealer_upcard = cards[1];
        let player_second = cards[2];
        let dealer_hole = cards[3];
        let mut player_cards: Vec<Card> = Vec::new();
        player_cards.push(player_first);
        player_cards.push(player_second);
        let mut dealer_cards: Vec<Card> = Vec::new();
        dealer_cards.push(dealer_upcard);
        dealer_cards.push(dealer_hole);
        let player = Hand::from_cards(player_cards);
        let dealer = Hand::from_cards(dealer_cards);
        assert(player@ =~= seq![drawn[0], drawn[2]]);
        assert(dealer@ =~= seq![drawn[1], drawn[3]]);
        let player_natural = player.is_two_card_twenty_one();
        let dealer_natural = dealer.is_two_card_twenty_one();
        let dealer_value = dealer_upcard.rank().blackjack_value();
        let should_settle = dealer_value != 1 && ((dealer_value == 10 && dealer_natural) || player_natural);
        let phase = if dealer_value == 1 {
            RoundPhase::InsuranceOffer
        } else {
            RoundPhase::PlayerTurns
        };
        let status = if player_natural || should_settle {
            HandStatus::Standing
        } else {
            HandStatus::Active
        };
        let active_hand = if status == HandStatus::Active {
            Some(0usize)
        } else {
            None
        };
        let mut player_hands: Vec<PlayerHand> = Vec::new();
        player_hands.push(PlayerHand { hand: player, wager, status, origin: HandOrigin::Initial });
        let mut round = Round {
            rules,
            player_hands,
            dealer,
            phase,
            active_hand,
            original_wager: wager,
            insurance_wager: Chips::zero(),
            settlement: None,
        };
        proof {
            let expected = seq![
                PlayerHandView { cards: seq![drawn[0], drawn[2]], wager: wager@, status, origin: HandOrigin::Initial },
            ];
            assert(round@.hands =~= expected);
        }
        if should_settle {
            match round.finish_settlement() {
                Ok(()) => {},
                Err(error) => return Err(error),
            }
        }
        Ok(round)
    }

    /// Settles the round against the dealer's current cards.
    fn finish_settlement(&mut self) -> (result: Result<(), RoundError>)
        requires
            old(self)@.dealer.len() >= 2,
            1 <= old(self)@.hands.len() <= MAXIMUM_HANDS,
        ensures
            match settled_round(old(self)@, old(self)@.dealer) {
                Ok(view) => result == Ok::<(), RoundError>(()) && final(self)@ == view,
                Err(e) => result == Err::<(), RoundError>(e) && final(self)@ == old(self)@,
            },
    {
        let settlement = match self.calculate_settlement(&self.dealer) {
            Ok(settlement) => settlement,
            Err(error) => return Err(error),
        };
        self.complete_with(settlement);
        Ok(())
    }

    fn complete_with(&mut self, settlement: RoundSettlement)
        ensures
            final(self)@ == (RoundView {
                phase: RoundPhase::Settled,
                active: None,
                settlement: Some(settlement@),
                ..old(self)@
            }),
    {
        self.phase = RoundPhase::Settled;
        self.active_hand = None;
        self.settlement = Some(settlement);
    }

    /// The chips returned for a hand with the given outcome and wager.
    fn credit_for(&self, outcome: RoundOutcome, wager: Chips) -> (result: Result<Chips, MoneyError>)
        ensures
            match credit_for(outcome, wager@, self.rules.blackjack_payout()) {
                Ok(credit) => result matches Ok(c) && c@ == credit,
                Err(e) => result == Err::<Chips, MoneyError>(e),
            },
    {
        match outcome {
            RoundOutcome::Bust | RoundOutcome::Loss => Ok(Chips::zero()),
            RoundOutcome::Push => Ok(wager),
            RoundOutcome::Win => wager.checked_mul(2),
            RoundOutcome::Blackjack => {
                let (numerator, denominator) = self.rules.blackjack_profit_ratio();
                let profit = match wager.checked_mul_ratio(numerator, denominator) {
                    Ok(profit) => profit,
                    Err(error) => return Err(error),
                };
                wager.checked_add(profit)
            },
        }
    }

    /// Settles every hand against `dealer` and adds any insurance credit.
    fn calculate_settlement(&self, dealer: &Hand) -> (result: Result<RoundSettlement, RoundError>)
        ensures
            match settlement_for(self@, dealer@) {
                Ok(view) => result matches Ok(s) && s@ == view,
                Err(e) => result == Err::<RoundSettlement, RoundError>(RoundError::Money(e)),
            },
    {
        let dealer_natural = dealer.is_two_card_twenty_one();
        let dealer_value = dealer.value();
        let ghost hands = self@.hands;
        let ghost payout = self.rules.blackjack_payout();
        let mut hand_results: Vec<HandSettlement> = Vec::new();
        let mut main_credit = Chips::zero();
        let mut index: usize = 0;
        assert(hand_results@.map_values(|r: HandSettlement| r@) =~= Seq::<HandResult>::empty());
        while index < self.player_hands.len()
            invariant
                index <= self.player_hands@.len(),
                hands == self@.hands,
                hands.len() == self.player_hands@.len(),
                forall|k: int| 0 <= k < hands.len() ==> #[trigger] hands[k] == self.player_hands@[k]@,
                payout == self.rules.blackjack_payout(),
                settle_from(hands, dealer@, payout, 0, Seq::empty(), 0) == settle_from(
                    hands,
                    dealer@,
                    payout,
                    index as int,
                    hand_results@.map_values(|r: HandSettlement| r@),
                    main_credit@,
                ),
                dealer_natural == is_two_card_21(dealer@),
                dealer_value == value_of(dealer@),
            decreases self.player_hands@.len() - index,
        {
            let hand = &self.player_hands[index];
            let ghost hv = hand@;
            assert(hv == hands[index as int]);
            let outcome = if hand.hand.is_bust() {
                RoundOutcome::Bust
            } else if dealer_natural {
                if hand.is_natural() {
                    RoundOutcome::Push
                } else {
                    RoundOutcome::Loss
                }
            } else if hand.is_natural() {
                RoundOutcome::Blackjack
            } else if dealer_value.total > 21 {
                RoundOutcome::Win
            } else {
                let total = hand.hand.value().total;
                if total < dealer_value.total {
                    RoundOutcome::Loss
                } else if total == dealer_value.total {
                    RoundOutcome::Push
                } else {
                    RoundOutcome::Win
                }
            };
            assert(outcome == outcome_for(hv, dealer@));
            let credit = match self.credit_for(outcome, hand.wager) {
                Ok(credit) => credit,
                Err(error) => return Err(RoundError::Money(error)),
            };
            main_credit = match main_credit.checked_add(credit) {
                Ok(sum) => sum,
                Err(error) => return Err(RoundError::Money(error)),
            };
            let ghost before = hand_results@.map_values(|r: HandSettlement| r@);
            hand_results.push(HandSettlement { outcome, wager: hand.wager, credit });
            assert(hand_results@.map_values(|r: HandSettlement| r@) =~= before.push(
                HandResult { outcome, wager: hv.wager, credit: credit@ },
            ));
            index = index + 1;
        }
        let insurance_credit = if dealer_natural {
            match self.insurance_wager.checked_mul(3) {
                Ok(credit) => credit,
                Err(error) => return Err(RoundError::Money(error)),
            }
        } else {
            Chips::zero()
        };
        let total_credit = match main_credit.checked_add(insurance_credit) {
            Ok(total) => total,
            Err(error) => return Err(RoundError::Money(error)),
        };
        Ok(
            RoundSettlement {
                hand_results,
                main_credit,
                insurance_wager: self.insurance_wager,
                insurance_credit,
                total_credit,
            },
        )
    }
}

/// The index of the first active hand at or after `start`.
fn first_active(hands: &Vec<PlayerHand>, start: usize) -> (found: Option<usize>)
    requires
        start <= hands@.len(),
    ensures
        found == first_active_from(hands@.map_values(|h: PlayerHand| h@), start as int),
{
    let ghost views = hands@.map_values(|h: PlayerHand| h@);
    let mut index = start;
    while index < hands.len()
        invariant
            start <= index <= hands@.len(),
            views == hands@.map_values(|h: PlayerHand| h@),
            first_active_from(views, start as int) == first_active_from(views, index as int),
        decreases hands@.len() - index,
    {
        if hands[index].status == HandStatus::Active {
            return Some(index);
        }
        index = index + 1;
    }
    None
}

/// Whether `actions` holds `action`.
fn holds_action(actions: &Vec<PlayerAction>, action: PlayerAction) -> (found: bool)
    ensures
        found == actions@.contains(action),
{
    let mut index: usize = 0;
    while index < actions.len()
        invariant
            index <= actions@.len(),
            forall|k: int| 0 <= k < index ==> actions@[k] != action,
        decreases actions@.len() - index,
    {
        if actions[index] == action {
            return true;
        }
        index = index + 1;
    }
    false
}

impl Round {
    pub fn phase(&self) -> (phase: RoundPhase)
        ensures
            phase == self@.phase,
    {
        self.phase
    }

    /// The dealer's face-up card.
    pub fn dealer_upcard(&self) -> (card: Card)
        requires
            self.wf(),
        ensures
            card == self@.dealer[0],
    {
        self.dealer.card(0)
    }

    pub fn dealer_hand(&self) -> (hand: &Hand)
        ensures
            hand@ == self@.dealer,
    {
        &self.dealer
    }

    /// The player's hands, in play order.
    pub fn player_hands(&self) -> (hands: &[PlayerHand])
        ensures
            hands@.map_values(|h: PlayerHand| h@) == self@.hands,
    {
        self.player_hands.as_slice()
    }

    pub fn active_hand_index(&self) -> (index: Option<usize>)
        ensures
            index == self@.active,
    {
        self.active_hand
    }

    pub fn insurance_wager(&self) -> (wager: Chips)
        ensures
            wager@ == self@.insurance_wager,
    {
        self.insurance_wager
    }

    /// The settlement, once the round is settled and until it is taken.
    pub fn settlement(&self) -> (settlement: Option<&RoundSettlement>)
        ensures
            match settlement {
                Some(s) => self@.settlement == Some(s@),
                None => self@.settlement is None,
            },
    {
        match &self.settlement {
            Some(settlement) => Some(settlement),
            None => None,
        }
    }

    fn can_split(&self, index: usize, bankroll: Chips) -> (allowed: bool)
        requires
            index < self@.hands.len(),
            self@.hands.len() <= MAXIMUM_HANDS,
        ensures
            allowed == can_split_at(self@, index as int, bankroll@),
    {
        let hand = &self.player_hands[index];
        assert(hand@ == self@.hands[index as int]);
        self.player_hands.len() < self.rules.maximum_hands() && bankroll.value() >= hand.wager.value() && match hand.hand.split_value() {
            Some(_) => true,
            None => false,
        }
    }

    /// The actions open on the active hand, in offer order.
    pub fn legal_actions(&self, bankroll: Chips) -> (actions: Vec<PlayerAction>)
        requires
            self.wf(),
        ensures
            actions@ == legal_actions_for(self@, bankroll@),
    {
        let index = match self.active_hand {
            Some(index) => index,
            None => return Vec::new(),
        };
        if self.phase != RoundPhase::PlayerTurns {
            return Vec::new();
        }
        let hand = &self.player_hands[index];
        assert(hand@ == self@.hands[index as int]);
        let mut actions: Vec<PlayerAction> = Vec::new();
        if hand.origin == HandOrigin::SplitAces {
            if self.can_split(index, bankroll) {
                actions.push(PlayerAction::Split);
            }
            assert(actions@ =~= legal_actions_for(self@, bankroll@));
            return actions;
        }
        actions.push(PlayerAction::Hit);
        actions.push(PlayerAction::Stand);
        if hand.hand.len() == 2 && bankroll.value() >= hand.wager.value() {
            actions.push(PlayerAction::Double);
        }
        if self.can_split(index, bankroll) {
            actions.push(PlayerAction::Split);
        }
        assert(actions@ =~= legal_actions_for(self@, bankroll@));
        actions
    }

    /// Takes the settlement out of a settled round; later calls find none.
    pub fn take_settlement(&mut self) -> (settlement: Option<RoundSettlement>)
        ensures
            match settlement {
                Some(s) => old(self)@.settlement == Some(s@),
                None => old(self)@.settlement is None,
            },
            final(self)@ == (RoundView { settlement: None, ..old(self)@ }),
    {
        self.settlement.take()
    }

    /// Moves play past hand `index`.
    fn advance_after(&mut self, index: usize)
        requires
            index < old(self)@.hands.len(),
            old(self)@.hands.len() <= MAXIMUM_HANDS,
        ensures
            final(self)@ == advance_after(old(self)@, index as int),
    {
        self.active_hand = first_active(&self.player_hands, index + 1);
        if self.active_hand.is_none() {
            self.phase = RoundPhase::DealerTurn;
        }
    }
}

/// The dealer's play only adds cards drawn from the top of the shoe, and
/// stops on a total the dealer stands on.
pub proof fn lemma_dealer_play(dealer: Seq<Card>, shoe: Seq<Card>, rule: Soft17Rule)
    ensures
        dealer_play(dealer, shoe, rule) matches Some((cards, rest)) ==> {
            &&& cards.len() >= dealer.len()
            &&& cards.subrange(0, dealer.len() as int) == dealer
            &&& cards.len() + rest.len() == dealer.len() + shoe.len()
            &&& rest == shoe.subrange(0, rest.len() as int)
            &&& cards.subrange(dealer.len() as int, cards.len() as int) == top_cards(shoe, shoe.len() - rest.len())
            &&& !dealer_should_hit(cards, rule)
        },
    decreases shoe.len(),
{
    if dealer_should_hit(dealer, rule) && shoe.len() > 0 {
        let next = dealer.push(shoe.last());
        let smaller = shoe.drop_last();
        lemma_dealer_play(next, smaller, rule);
        if let Some((cards, rest)) = dealer_play(dealer, shoe, rule) {
            assert(cards.subrange(0, dealer.len() as int) =~= cards.subrange(0, next.len() as int).subrange(0, dealer.len() as int));
            assert(next.subrange(0, dealer.len() as int) =~= dealer);
            assert(rest =~= shoe.subrange(0, rest.len() as int));
            assert(cards.subrange(dealer.len() as int, cards.len() as int) =~= seq![shoe.last()] + cards.subrange(next.len() as int, cards.len() as int));
            assert(top_cards(shoe, shoe.len() - rest.len()) =~= seq![shoe.last()] + top_cards(smaller, smaller.len() - rest.len()));
        }
    } else {
        assert(dealer.subrange(0, dealer.len() as int) =~= dealer);
        assert(shoe.subrange(0, shoe.len() as int) =~= shoe);
        assert(top_cards(shoe, 0) =~= Seq::<Card>::empty());
        assert(dealer.subrange(dealer.len() as int, dealer.len() as int) =~= Seq::<Card>::empty());
    }
}

/// Whether some hand of `hands` has not busted.
fn any_live_hand(hands: &Vec<PlayerHand>) -> (live: bool)
    ensures
        live == has_live_hand(hands@.map_values(|h: PlayerHand| h@)),
{
    let ghost views = hands@.map_values(|h: PlayerHand| h@);
    let mut index: usize = 0;
    while index < hands.len()
        invariant
            index <= hands@.len(),
            views == hands@.map_values(|h: PlayerHand| h@),
            forall|k: int| 0 <= k < index ==> #[trigger] views[k].status == HandStatus::Busted,
        decreases hands@.len() - index,
    {
        if hands[index].status != HandStatus::Busted {
            assert(views[index as int].status != HandStatus::Busted);
            return true;
        }
        index = index + 1;
    }
    false
}

/// The hand a split makes from one split card and its new card.
fn split_hand(card: Card, draw: Card, wager: Chips, origin: HandOrigin) -> (hand: PlayerHand)
    ensures
        hand@ == split_hand_for(card, draw, wager@, origin),
{
    let mut cards: Vec<Card> = Vec::new();
    cards.push(card);
    cards.push(draw);
    let hand = Hand::from_cards(cards);
    assert(hand@ =~= seq![card, draw]);
    let twenty_one = hand.value().total == 21;
    let pair_of_aces = match hand.split_value() {
        Some(value) => value == 1,
        None => false,
    };
    let status = if origin == HandOrigin::SplitAces || twenty_one {
        if origin == HandOrigin::SplitAces && pair_of_aces {
            HandStatus::Active
        } else {
            HandStatus::Standing
        }
    } else {
        HandStatus::Active
    };
    PlayerHand { hand, wager, status, origin }
}

impl Round {
    /// Applies a player action to the active hand. An action that is not
    /// legal, a shoe too short for the draw, or a doubled wager beyond
    /// `u64::MAX` is refused and changes nothing.
    pub fn act(&mut self, action: PlayerAction, bankroll: &mut Chips, shoe: &mut Shoe) -> (result: Result<(), RoundError>)
        requires
            old(self).wf(),
        ensures
            final(self).wf(),
            match act_outcome(old(self)@, action, old(bankroll)@, old(shoe)@) {
                Ok((round, funds, cards)) => result is Ok && final(self)@ == round && final(bankroll)@ == funds
                    && final(shoe)@ == cards,
                Err(e) => result == Err::<(), RoundError>(e) && final(self)@ == old(self)@ && final(bankroll)@ == old(
                    bankroll,
                )@ && final(shoe)@ == old(shoe)@,
            },
    {
        let actions = self.legal_actions(*bankroll);
        if !holds_action(&actions, action) {
            return Err(RoundError::IllegalAction(action));
        }
        let index = match self.active_hand {
            Some(index) => index,
            None => return Err(RoundError::InvalidPhase(self.phase)),
        };
        let ghost start = self@;
        match action {
            PlayerAction::Hit => {
                match self.hit(index, shoe) {
                    Ok(()) => {},
                    Err(error) => return Err(error),
                }
            },
            PlayerAction::Stand => {
                self.player_hands[index].status = HandStatus::Standing;
                proof {
                    assert(self@.hands =~= start.hands.update(
                        index as int,
                        PlayerHandView { status: HandStatus::Standing, ..start.hands[index as int] },
                    ));
                }
            },
            PlayerAction::Double => {
                match self.double(index, bankroll, shoe) {
                    Ok(()) => {},
                    Err(error) => return Err(error),
                }
            },
            PlayerAction::Split => {
                return self.split(index, bankroll, shoe);
            },
        }
        let ghost updated = self@;
        assert(updated.hands[index as int] == self.player_hands@[index as int]@);
        if self.player_hands[index].status != HandStatus::Active {
            assert(self.player_hands@[index as int]@.status != HandStatus::Active);
            self.advance_after(index);
            proof {
                lemma_first_active_from(updated.hands, index + 1);
            }
        } else {
            assert(self.player_hands@[index as int]@.status == HandStatus::Active);
        }
        proof {
            lemma_act_keeps_wf(start, action, old(bankroll)@, old(shoe)@);
        }
        Ok(())
    }

    /// Hit on hand `index` without moving play on.
    fn hit(&mut self, index: usize, shoe: &mut Shoe) -> (result: Result<(), RoundError>)
        requires
            index < old(self)@.hands.len(),
        ensures
            old(shoe)@.len() < 1 ==> result == Err::<(), RoundError>(
                RoundError::Shoe(ShoeError::InsufficientCards { requested: 1, remaining: old(shoe)@.len() as usize }),
            ) && final(self)@ == old(self)@ && final(shoe)@ == old(shoe)@,
            old(shoe)@.len() >= 1 ==> result is Ok && final(shoe)@ == old(shoe)@.drop_last() && final(self)@ == with_hand(
                old(self)@,
                index as int,
                hit_hand(old(self)@.hands[index as int], old(shoe)@.last()),
            ),
    {
        let ghost start = self@;
        let ghost top = shoe@;
        let drawn = match shoe.draw_many(1) {
            Ok(drawn) => drawn,
            Err(error) => return Err(RoundError::Shoe(error)),
        };
        let card = drawn[0];
        assert(card == top.last());
        assert(shoe@ =~= top.drop_last());
        self.player_hands[index].hand.push(card);
        if self.player_hands[index].hand.is_bust() {
            self.player_hands[index].status = HandStatus::Busted;
        } else if self.player_hands[index].hand.value().total == 21 {
            self.player_hands[index].status = HandStatus::Standing;
        }
        proof {
            assert(self@.hands =~= start.hands.update(index as int, hit_hand(start.hands[index as int], card)));
        }
        Ok(())
    }

    /// Double on hand `index` without moving play on.
    fn double(&mut self, index: usize, bankroll: &mut Chips, shoe: &mut Shoe) -> (result: Result<(), RoundError>)
        requires
            index < old(self)@.hands.len(),
            old(bankroll)@ >= old(self)@.hands[index as int].wager,
        ensures
            ({
                let wager = old(self)@.hands[index as int].wager;
                if wager * 2 > u64::MAX {
                    result == Err::<(), RoundError>(RoundError::Money(MoneyError::Overflow)) && final(self)@ == old(self)@
                        && final(bankroll)@ == old(bankroll)@ && final(shoe)@ == old(shoe)@
                } else if old(shoe)@.len() < 1 {
                    result == Err::<(), RoundError>(
                        RoundError::Shoe(ShoeError::InsufficientCards { requested: 1, remaining: old(shoe)@.len() as usize }),
                    ) && final(self)@ == old(self)@ && final(bankroll)@ == old(bankroll)@ && final(shoe)@ == old(shoe)@
                } else {
                    result is Ok && final(shoe)@ == old(shoe)@.drop_last() && final(bankroll)@ == old(bankroll)@ - wager
                        && final(self)@ == with_hand(
                        old(self)@,
                        index as int,
                        double_hand(old(self)@.hands[index as int], old(shoe)@.last()),
                    )
                }
            }),
    {
        let ghost start = self@;
        let ghost top = shoe@;
        let wager = self.player_hands[index].wager;
        assert(wager@ == start.hands[index as int].wager);
        let remaining = match bankroll.checked_sub(wager) {
            Ok(remaining) => remaining,
            Err(error) => return Err(RoundError::Money(error)),
        };
        let doubled = match wager.checked_add(wager) {
            Ok(doubled) => doubled,
            Err(error) => return Err(RoundError::Money(error)),
        };
        let drawn = match shoe.draw_many(1) {
            Ok(drawn) => drawn,
            Err(error) => return Err(RoundError::Shoe(error)),
        };
        let card = drawn[0];
        assert(card == top.last());
        assert(shoe@ =~= top.drop_last());
        *bankroll = remaining;
        self.player_hands[index].wager = doubled;
        self.player_hands[index].hand.push(card);
        if self.player_hands[index].hand.is_bust() {
            self.player_hands[index].status = HandStatus::Busted;
        } else {
            self.player_hands[index].status = HandStatus::Standing;
        }
        proof {
            assert(self@.hands =~= start.hands.update(index as int, double_hand(start.hands[index as int], card)));
        }
        Ok(())
    }

    /// Stands every hand from split Aces that can no longer be split.
    fn normalize_split_aces(&mut self, bankroll: Chips)
        ensures
            final(self)@ == (RoundView { hands: normalized_hands(old(self)@.hands, bankroll@), ..old(self)@ }),
    {
        let ghost start = self@;
        let below_hand_limit = self.player_hands.len() < self.rules.maximum_hands();
        let mut index: usize = 0;
        assert(self@.hands =~= Seq::new(
            start.hands.len(),
            |k: int|
                if k < index {
                    normalized_hand(start.hands[k], below_hand_limit, bankroll@)
                } else {
                    start.hands[k]
                },
        ));
        while index < self.player_hands.len()
            invariant
                self.player_hands@.len() == start.hands.len(),
                index <= start.hands.len(),
                below_hand_limit == (start.hands.len() < MAXIMUM_HANDS),
                self@ == (RoundView {
                    hands: Seq::new(
                        start.hands.len(),
                        |k: int|
                            if k < index {
                                normalized_hand(start.hands[k], below_hand_limit, bankroll@)
                            } else {
                                start.hands[k]
                            },
                    ),
                    ..start
                }),
            decreases start.hands.len() - index,
        {
            let ghost before = self@;
            let ghost original = start.hands[index as int];
            assert(self@.hands[index as int] == original);
            assert(self@.hands[index as int] == self.player_hands@[index as int]@);
            let hand = &self.player_hands[index];
            assert(hand@ == original);
            let pair_of_aces = match hand.hand.split_value() {
                Some(value) => value == 1,
                None => false,
            };
            if hand.origin == HandOrigin::SplitAces && hand.status == HandStatus::Active && (!below_hand_limit
                || bankroll.value() < hand.wager.value() || !pair_of_aces) {
                self.player_hands[index].status = HandStatus::Standing;
                assert(self.player_hands@[index as int]@ == normalized_hand(original, below_hand_limit, bankroll@));
            } else {
                assert(self.player_hands@[index as int]@ == normalized_hand(original, below_hand_limit, bankroll@));
            }
            proof {
                assert(self@.hands =~= before.hands.update(
                    index as int,
                    normalized_hand(original, below_hand_limit, bankroll@),
                ));
            }
            index = index + 1;
            proof {
                assert(self@.hands =~= Seq::new(
                    start.hands.len(),
                    |k: int|
                        if k < index {
                            normalized_hand(start.hands[k], below_hand_limit, bankroll@)
                        } else {
                            start.hands[k]
                        },
                ));
            }
        }
        proof {
            assert(self@.hands =~= normalized_hands(start.hands, bankroll@));
        }
    }

    /// Splits hand `index` into two hands.
    fn split(&mut self, index: usize, bankroll: &mut Chips, shoe: &mut Shoe) -> (result: Result<(), RoundError>)
        requires
            old(self).wf(),
            index < old(self)@.hands.len(),
            old(self)@.active == Some(index),
            old(self)@.phase == RoundPhase::PlayerTurns,
            can_split_at(old(self)@, index as int, old(bankroll)@),
        ensures
            final(self).wf(),
            old(shoe)@.len() < 2 ==> result == Err::<(), RoundError>(
                RoundError::Shoe(ShoeError::InsufficientCards { requested: 2, remaining: old(shoe)@.len() as usize }),
            ) && final(self)@ == old(self)@ && final(bankroll)@ == old(bankroll)@ && final(shoe)@ == old(shoe)@,
            old(shoe)@.len() >= 2 ==> {
                let after = (old(bankroll)@ - old(self)@.hands[index as int].wager) as u64;
                &&& result is Ok
                &&& final(bankroll)@ == after
                &&& final(shoe)@ == old(shoe)@.subrange(0, old(shoe)@.len() - 2)
                &&& final(self)@ == split_round(
                    old(self)@,
                    index as int,
                    after,
                    old(shoe)@.last(),
                    old(shoe)@[old(shoe)@.len() - 2],
                )
            },
    {
        let ghost start = self@;
        let ghost top = shoe@;
        let wager = self.player_hands[index].wager;
        assert(self.player_hands@[index as int]@ == start.hands[index as int]);
        let first = self.player_hands[index].hand.card(0);
        let second = self.player_hands[index].hand.card(1);
        let aces = match self.player_hands[index].hand.split_value() {
            Some(value) => value == 1,
            None => false,
        };
        let remaining = match bankroll.checked_sub(wager) {
            Ok(remaining) => remaining,
            Err(error) => return Err(RoundError::Money(error)),
        };
        let drawn = match shoe.draw_many(2) {
            Ok(drawn) => drawn,
            Err(error) => return Err(RoundError::Shoe(error)),
        };
        let first_draw = drawn[0];
        let second_draw = drawn[1];
        assert(first_draw == top.last());
        assert(second_draw == top[top.len() - 2]);
        let origin = if aces {
            HandOrigin::SplitAces
        } else {
            HandOrigin::Split
        };
        let left = split_hand(first, first_draw, wager, origin);
        let right = split_hand(second, second_draw, wager, origin);
        *bankroll = remaining;
        self.player_hands.remove(index);
        self.player_hands.insert(index, right);
        self.player_hands.insert(index, left);
        let ghost pair = seq![left@, right@];
        proof {
            assert(self@.hands =~= start.hands.subrange(0, index as int) + pair + start.hands.subrange(
                index + 1,
                start.hands.len() as int,
            ));
        }
        let ghost spliced = self@.hands;
        self.normalize_split_aces(*bankroll);
        let ghost normalized = self@.hands;
        self.active_hand = first_active(&self.player_hands, index);
        if self.active_hand.is_some() {
            self.phase = RoundPhase::PlayerTurns;
        } else {
            self.phase = RoundPhase::DealerTurn;
        }
        proof {
            lemma_first_active_from(normalized, index as int);
            lemma_split_round_wf(
                start,
                index as int,
                remaining@,
                top.last(),
                top[top.len() - 2],
                old(bankroll)@,
            );
        }
        Ok(())
    }

    /// Records an insurance wager while insurance is offered, then has the
    /// dealer peek.
    pub fn place_insurance(&mut self, amount: Chips, bankroll: &mut Chips) -> (result: Result<(), RoundError>)
        requires
            old(self).wf(),
        ensures
            final(self).wf(),
            ({
                let (expected, view, funds) = insurance_outcome(old(self)@, amount, *old(bankroll));
                result == expected && final(self)@ == view && final(bankroll)@ == funds
            }),
    {
        if self.phase != RoundPhase::InsuranceOffer {
            return Err(RoundError::InvalidPhase(self.phase));
        }
        assert(self.original_wager == Chips::spec_new(self@.original_wager)) by {
            Chips::lemma_view_eq(self.original_wager, Chips::spec_new(self@.original_wager));
        }
        let maximum = match self.original_wager.checked_mul_ratio(1, 2) {
            Ok(maximum) => maximum,
            Err(error) => return Err(RoundError::Money(error)),
        };
        if amount.value() > maximum.value() {
            return Err(RoundError::InvalidInsurance { maximum, attempted: amount });
        }
        let remaining = match bankroll.checked_sub(amount) {
            Ok(remaining) => remaining,
            Err(error) => return Err(RoundError::Money(error)),
        };
        let ghost before = self@;
        *bankroll = remaining;
        self.insurance_wager = amount;
        assert(self@ == (RoundView { insurance_wager: amount@, ..before }));
        assert(self.player_hands@[0]@ == self@.hands[0]);
        let player_natural = self.player_hands[0].is_natural();
        if self.dealer.is_two_card_twenty_one() || player_natural {
            let result = self.finish_settlement();
            result
        } else {
            self.phase = RoundPhase::PlayerTurns;
            Ok(())
        }
    }

    /// Plays the dealer's hand from the shoe when some player hand is live,
    /// then settles the round. A shoe that runs out, or a settlement beyond
    /// `u64::MAX`, changes nothing.
    pub fn play_dealer(&mut self, shoe: &mut Shoe) -> (result: Result<(), RoundError>)
        requires
            old(self).wf(),
        ensures
            final(self).wf(),
            match dealer_turn_outcome(old(self)@, old(shoe)@) {
                Ok((round, cards)) => result is Ok && final(self)@ == round && final(shoe)@ == cards,
                Err(e) => result == Err::<(), RoundError>(e) && final(self)@ == old(self)@ && final(shoe)@ == old(shoe)@,
            },
    {
        if self.phase != RoundPhase::DealerTurn {
            return Err(RoundError::InvalidPhase(self.phase));
        }
        let ghost rule = self.rules.soft_17();
        let mut dealer = self.dealer.duplicate();
        let mut working_shoe = shoe.duplicate();
        if any_live_hand(&self.player_hands) {
            loop
                invariant
                    rule == self.rules.soft_17(),
                    self@ == old(self)@,
                    self.wf(),
                    shoe@ == old(shoe)@,
                    self@.phase == RoundPhase::DealerTurn,
                    has_live_hand(self@.hands),
                    dealer_play(self@.dealer, shoe@, rule) == dealer_play(dealer@, working_shoe@, rule),
                ensures
                    !dealer_should_hit(dealer@, rule),
                    dealer_play(self@.dealer, shoe@, rule) == Some((dealer@, working_shoe@)),
                decreases working_shoe@.len(),
            {
                let value = dealer.value();
                let should_hit = value.total < 17 || (value.total == 17 && value.is_soft && self.rules.soft_17()
                    == Soft17Rule::Hit);
                if !should_hit {
                    break;
                }
                match working_shoe.draw() {
                    Ok(card) => dealer.push(card),
                    Err(error) => return Err(RoundError::Shoe(error)),
                }
            }
        }
        proof {
            lemma_dealer_play(self@.dealer, shoe@, rule);
        }
        let settlement = match self.calculate_settlement(&dealer) {
            Ok(settlement) => settlement,
            Err(error) => return Err(error),
        };
        self.dealer = dealer;
        *shoe = working_shoe;
        self.complete_with(settlement);
        Ok(())
    }
}

} // verus!
