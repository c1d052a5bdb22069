//! Properties that hold of the library as a whole, each proved over the
//! models that the operations' contracts use.

use vstd::prelude::*;

use crate::card::{card_of, Card, Rank, Suit};
use crate::cli::is_recoverable;
use crate::hand::{
    best_total, capped_hard_total, has_ace, hard_total, is_bust_cards, is_soft_cards, is_two_card_21, lemma_hard_total_push,
    value_of,
};
use crate::money::Chips;
use crate::round::{
    act_outcome, credit_for, dealer_play, settle_from, HandResult, dealer_should_hit, dealer_turn_outcome, double_hand, has_live_hand, hit_hand,
    insurance_outcome, is_natural_hand, lemma_dealer_play, lemma_settle_from_error, legal_actions_for, outcome_for, round_wf,
    settlement_for, split_hand_for, HandOrigin, HandStatus, PlayerAction, PlayerHandView,
    RoundOutcome, RoundPhase, RoundView,
};
use crate::rules::{BlackjackPayout, TableRules, MAXIMUM_HANDS};
use crate::session::{
    advance_outcome, deal_outcome, session_act_outcome, session_insurance_outcome, session_wf, start_check,
    SessionView,
};
use crate::shoe::{fresh_card, rank_at, standard_shoe, suit_at, top_cards};

verus! {

broadcast use crate::money::group_chips;

// ---------------------------------------------------------------------------
// Hands
// ---------------------------------------------------------------------------

/// A soft hand holds an Ace and totals at most twenty-one; an Ace is counted
/// as eleven exactly when that cannot bust the hand.
pub proof fn soft_hand_never_busts(cards: Seq<Card>)
    ensures
        value_of(cards).is_soft ==> has_ace(cards) && value_of(cards).total <= 21,
        value_of(cards).is_soft <==> has_ace(cards) && hard_total(cards) + 10 <= 21,
        !value_of(cards).is_soft ==> value_of(cards).total == capped_hard_total(cards),
{
}

/// A busted hand stays busted whatever card it receives.
pub proof fn bust_is_final(cards: Seq<Card>, card: Card)
    requires
        is_bust_cards(cards),
    ensures
        is_bust_cards(cards.push(card)),
{
    lemma_hard_total_push(cards, card);
}

// ---------------------------------------------------------------------------
// Chips
// ---------------------------------------------------------------------------

/// Taking back an amount that was added restores the original amount.
pub proof fn add_then_sub_restores(amount: u64, other: u64)
    requires
        amount + other <= u64::MAX,
    ensures
        ((amount + other) as u64) - other == amount,
{
}

// ---------------------------------------------------------------------------
// Wagers
// ---------------------------------------------------------------------------

/// Every wager the table accepts has an exact natural payout and an exact
/// half-wager insurance limit.
pub proof fn accepted_wagers_pay_exactly(rules: TableRules, wager: Chips, bankroll: Chips)
    requires
        rules.wager_verdict(wager, bankroll) is Ok,
    ensures
        (wager@ * rules.blackjack_payout().ratio().0) % (rules.blackjack_payout().ratio().1 as int) == 0,
        wager@ % 2 == 0,
{
    let w = wager@ as int;
    match rules.blackjack_payout() {
        crate::rules::BlackjackPayout::ThreeToTwo => {
            assert(w % 2 == 0);
            assert((w * 3) % 2 == 0) by (nonlinear_arith)
                requires
                    w % 2 == 0,
            ;
        },
        crate::rules::BlackjackPayout::SixToFive => {
            assert(w % 10 == 0);
            assert((w * 6) % 5 == 0 && w % 2 == 0) by (nonlinear_arith)
                requires
                    w % 10 == 0,
            ;
        },
    }
}

// ---------------------------------------------------------------------------
// Stakes
// ---------------------------------------------------------------------------

/// Sum of the wagers on the hands.
pub open spec fn wagers_total(hands: Seq<PlayerHandView>) -> int
    decreases hands.len(),
{
    if hands.len() == 0 {
        0
    } else {
        wagers_total(hands.drop_last()) + hands.last().wager
    }
}

/// Everything the player has at stake in a round: every hand's wager and
/// the insurance wager.
pub open spec fn staked(round: RoundView) -> int {
    wagers_total(round.hands) + round.insurance_wager
}

proof fn lemma_wagers_total_add(a: Seq<PlayerHandView>, b: Seq<PlayerHandView>)
    ensures
        wagers_total(a + b) == wagers_total(a) + wagers_total(b),
    decreases b.len(),
{
    if b.len() == 0 {
        assert(a + b =~= a);
    } else {
        lemma_wagers_total_add(a, b.drop_last());
        assert((a + b).drop_last() =~= a + b.drop_last());
    }
}

proof fn lemma_wagers_total_single(hand: PlayerHandView)
    ensures
        wagers_total(seq![hand]) == hand.wager,
{
    assert(seq![hand].drop_last() =~= Seq::<PlayerHandView>::empty());
    assert(wagers_total(Seq::<PlayerHandView>::empty()) == 0);
    assert(seq![hand].last() == hand);
}

proof fn lemma_wagers_total_pointwise(a: Seq<PlayerHandView>, b: Seq<PlayerHandView>)
    requires
        a.len() == b.len(),
        forall|k: int| 0 <= k < a.len() ==> #[trigger] a[k].wager == b[k].wager,
    ensures
        wagers_total(a) == wagers_total(b),
    decreases a.len(),
{
    if a.len() > 0 {
        lemma_wagers_total_pointwise(a.drop_last(), b.drop_last());
        assert(a.last().wager == b[b.len() - 1].wager);
    }
}

proof fn lemma_wagers_total_split_at(hands: Seq<PlayerHandView>, index: int)
    requires
        0 <= index < hands.len(),
    ensures
        wagers_total(hands) == wagers_total(hands.subrange(0, index)) + hands[index].wager + wagers_total(
            hands.subrange(index + 1, hands.len() as int),
        ),
{
    let before = hands.subrange(0, index);
    let after = hands.subrange(index + 1, hands.len() as int);
    assert(hands =~= before + seq![hands[index]] + after);
    lemma_wagers_total_add(before + seq![hands[index]], after);
    lemma_wagers_total_add(before, seq![hands[index]]);
    lemma_wagers_total_single(hands[index]);
}

proof fn lemma_wagers_total_update(hands: Seq<PlayerHandView>, index: int, hand: PlayerHandView)
    requires
        0 <= index < hands.len(),
    ensures
        wagers_total(hands.update(index, hand)) == wagers_total(hands) - hands[index].wager + hand.wager,
{
    let updated = hands.update(index, hand);
    lemma_wagers_total_split_at(hands, index);
    lemma_wagers_total_split_at(updated, index);
    assert(updated.subrange(0, index) =~= hands.subrange(0, index));
    assert(updated.subrange(index + 1, updated.len() as int) =~= hands.subrange(index + 1, hands.len() as int));
}

/// Every chip leaves the bankroll only to go on the table: after any
/// accepted action, the bankroll plus everything at stake is unchanged.
/// Double and split move exactly one hand's wager from the bankroll onto the
/// table; hit and stand move nothing.
pub proof fn actions_conserve_chips(round: RoundView, action: PlayerAction, bankroll: u64, shoe: Seq<Card>)
    requires
        round_wf(round),
        act_outcome(round, action, bankroll, shoe) is Ok,
    ensures
        ({
            let (after, funds, _) = act_outcome(round, action, bankroll, shoe)->Ok_0;
            funds + staked(after) == bankroll + staked(round)
        }),
{
    let index = round.active->0 as int;
    let hand = round.hands[index];
    match action {
        PlayerAction::Hit => {
            lemma_wagers_total_update(round.hands, index, hit_hand(hand, shoe.last()));
        },
        PlayerAction::Stand => {
            lemma_wagers_total_update(round.hands, index, PlayerHandView { status: HandStatus::Standing, ..hand });
        },
        PlayerAction::Double => {
            lemma_wagers_total_update(round.hands, index, double_hand(hand, shoe.last()));
        },
        PlayerAction::Split => {
            let after = (bankroll - hand.wager) as u64;
            let origin = if crate::hand::split_value_of(hand.cards) == Some(1u8) {
                HandOrigin::SplitAces
            } else {
                HandOrigin::Split
            };
            let pair = seq![
                split_hand_for(hand.cards[0], shoe.last(), hand.wager, origin),
                split_hand_for(hand.cards[1], shoe[shoe.len() - 2], hand.wager, origin),
            ];
            let before = round.hands.subrange(0, index);
            let rest = round.hands.subrange(index + 1, round.hands.len() as int);
            let spliced = before + pair + rest;
            lemma_wagers_total_split_at(round.hands, index);
            lemma_wagers_total_add(before + pair, rest);
            lemma_wagers_total_add(before, pair);
            assert(pair.drop_last() =~= seq![pair[0]]);
            lemma_wagers_total_single(pair[0]);
            assert(wagers_total(pair) == wagers_total(seq![pair[0]]) + pair[1].wager);
            assert(wagers_total(pair) == 2 * hand.wager);
            lemma_wagers_total_pointwise(crate::round::normalized_hands(spliced, after), spliced);
        },
    }
}

/// Insurance moves its stake from the bankroll onto the table, whether the
/// round then continues or settles at once; a refused offer moves nothing.
/// As insurance is offered only on a round without any, chips are conserved.
pub proof fn insurance_conserves_chips(round: RoundView, amount: Chips, bankroll: Chips)
    ensures
        ({
            let (_, after, funds) = insurance_outcome(round, amount, bankroll);
            ||| funds == bankroll@ && after == round
            ||| after.insurance_wager == amount@ && funds == bankroll@ - amount@ && after.hands == round.hands
        }),
        round.insurance_wager == 0 ==> ({
            let (_, after, funds) = insurance_outcome(round, amount, bankroll);
            funds + staked(after) == bankroll@ + staked(round)
        }),
{
    if round.phase == RoundPhase::InsuranceOffer {
        if let Ok(maximum) = Chips::ratio_result(Chips::spec_new(round.original_wager), 1, 2) {
            if amount@ <= maximum@ && amount@ <= bankroll@ {
                let insured = RoundView { insurance_wager: amount@, ..round };
                if let Ok(settled) = crate::round::settled_round(insured, insured.dealer) {
                    assert(settled.hands == round.hands);
                    assert(settled.insurance_wager == amount@);
                }
            }
        }
    }
}

/// Insurance never exceeds half the original wager.
pub proof fn insurance_is_at_most_half_the_wager(round: RoundView, amount: Chips, bankroll: Chips)
    requires
        insurance_outcome(round, amount, bankroll).0 is Ok,
    ensures
        insurance_outcome(round, amount, bankroll).1.insurance_wager * 2 <= round.original_wager,
        insurance_outcome(round, amount, bankroll).1.insurance_wager == amount@,
{
}

// ---------------------------------------------------------------------------
// Player actions
// ---------------------------------------------------------------------------

/// Every action the round offers is accepted, provided the shoe holds the
/// cards it needs and a doubled wager fits in a `u64`.
pub proof fn legal_actions_are_accepted(round: RoundView, action: PlayerAction, bankroll: u64, shoe: Seq<Card>)
    requires
        legal_actions_for(round, bankroll).contains(action),
        shoe.len() >= 2,
        round.active matches Some(i) && i < round.hands.len() && round.hands[i as int].wager * 2 <= u64::MAX,
    ensures
        act_outcome(round, action, bankroll, shoe) is Ok,
{
}

/// No action is open unless the player's turns are running on an active
/// hand.
pub proof fn no_actions_outside_player_turns(round: RoundView, bankroll: u64)
    requires
        round.phase != RoundPhase::PlayerTurns || round.active is None,
    ensures
        legal_actions_for(round, bankroll) == Seq::<PlayerAction>::empty(),
{
}

/// A hand made by a split is never a natural, so a two-card twenty-one after
/// a split is paid as a regular win: it beats any dealer total below
/// twenty-one, or a dealer bust, at twice the stake.
pub proof fn split_twenty_one_is_a_regular_win(
    card: Card,
    draw: Card,
    wager: u64,
    origin: HandOrigin,
    dealer: Seq<Card>,
    payout: crate::rules::BlackjackPayout,
)
    requires
        origin != HandOrigin::Initial,
        best_total(seq![card, draw]) == 21,
        !crate::hand::is_two_card_21(dealer),
        best_total(dealer) < 21 || best_total(dealer) > 21,
        wager * 2 <= u64::MAX,
    ensures
        !is_natural_hand(split_hand_for(card, draw, wager, origin)),
        outcome_for(split_hand_for(card, draw, wager, origin), dealer) == RoundOutcome::Win,
        credit_for(RoundOutcome::Win, wager, payout) == Ok::<u64, crate::money::MoneyError>((wager * 2) as u64),
{
}

/// Splitting a pair of Aces gives two hands, each the Ace and exactly one
/// new card from the top of the shoe, carrying the original wager. Such a
/// hand stands at once unless its new card is another Ace and a further
/// split is allowed: fewer hands than the table's maximum and a bankroll
/// that covers the wager.
pub proof fn split_aces_take_one_card_each(round: RoundView, bankroll: u64, shoe: Seq<Card>)
    requires
        round_wf(round),
        round.active is Some,
        crate::hand::split_value_of(round.hands[round.active->0 as int].cards) == Some(1u8),
        act_outcome(round, PlayerAction::Split, bankroll, shoe) is Ok,
    ensures
        ({
            let i = round.active->0 as int;
            let (after, funds, _) = act_outcome(round, PlayerAction::Split, bankroll, shoe)->Ok_0;
            &&& after.hands.len() == round.hands.len() + 1
            &&& after.hands[i].cards == seq![round.hands[i].cards[0], shoe.last()]
            &&& after.hands[i + 1].cards == seq![round.hands[i].cards[1], shoe[shoe.len() - 2]]
            &&& forall|k: int|
                i <= k <= i + 1 ==> {
                    &&& (#[trigger] after.hands[k]).origin == HandOrigin::SplitAces
                    &&& after.hands[k].cards[0].rank() == Rank::Ace
                    &&& after.hands[k].wager == round.hands[i].wager
                    &&& after.hands[k].status == HandStatus::Active ==> {
                        &&& after.hands[k].cards[1].rank() == Rank::Ace
                        &&& after.hands.len() < MAXIMUM_HANDS
                        &&& funds >= after.hands[k].wager
                    }
                }
        }),
{
}

/// A hand from split Aces takes no card but by being split again: the only
/// action it may ever be offered is a split.
pub proof fn split_aces_only_resplit(round: RoundView, bankroll: u64)
    requires
        round.active is Some,
        round.active->0 < round.hands.len(),
        round.hands[round.active->0 as int].origin == HandOrigin::SplitAces,
    ensures
        forall|k: int|
            0 <= k < legal_actions_for(round, bankroll).len() ==> #[trigger] legal_actions_for(round, bankroll)[k]
                == PlayerAction::Split,
{
}

/// A hand over twenty-one loses whatever the dealer holds, a dealer bust
/// included: its outcome is a bust and it is credited nothing.
pub proof fn a_bust_hand_always_loses(hand: PlayerHandView, dealer: Seq<Card>, payout: BlackjackPayout)
    requires
        best_total(hand.cards) > 21,
    ensures
        outcome_for(hand, dealer) == RoundOutcome::Bust,
        credit_for(outcome_for(hand, dealer), hand.wager, payout) == Ok::<u64, crate::money::MoneyError>(0),
{
}

/// A hand of twenty-one or less that is not a natural, against a dealer who
/// busted without a natural, wins twice its stake; against a standing dealer
/// the higher total wins and equal totals push.
pub proof fn live_hands_are_compared_with_the_dealer(hand: PlayerHandView, dealer: Seq<Card>)
    requires
        best_total(hand.cards) <= 21,
        !(hand.origin == HandOrigin::Initial && hand.cards.len() == 2 && best_total(hand.cards) == 21),
        !(dealer.len() == 2 && best_total(dealer) == 21),
    ensures
        best_total(dealer) > 21 ==> outcome_for(hand, dealer) == RoundOutcome::Win,
        best_total(dealer) <= 21 && best_total(hand.cards) > best_total(dealer) ==> outcome_for(hand, dealer)
            == RoundOutcome::Win,
        best_total(dealer) <= 21 && best_total(hand.cards) == best_total(dealer) ==> outcome_for(hand, dealer)
            == RoundOutcome::Push,
        best_total(hand.cards) < best_total(dealer) <= 21 ==> outcome_for(hand, dealer) == RoundOutcome::Loss,
{
}

/// Hitting adds the top card of the shoe to the active hand. Over twenty-one
/// the hand busts; at exactly twenty-one it stands; in either case play
/// moves past it. Below twenty-one the hand stays in play.
pub proof fn hitting_adds_one_card(round: RoundView, bankroll: u64, shoe: Seq<Card>)
    requires
        round_wf(round),
        act_outcome(round, PlayerAction::Hit, bankroll, shoe) is Ok,
    ensures
        ({
            let i = round.active->0 as int;
            let (after, funds, rest) = act_outcome(round, PlayerAction::Hit, bankroll, shoe)->Ok_0;
            let cards = round.hands[i].cards.push(shoe.last());
            &&& round.active is Some
            &&& after.hands.len() == round.hands.len()
            &&& after.hands[i].cards == cards
            &&& after.hands[i].wager == round.hands[i].wager
            &&& funds == bankroll
            &&& rest == shoe.drop_last()
            &&& best_total(cards) > 21 ==> after.hands[i].status == HandStatus::Busted
            &&& best_total(cards) == 21 ==> after.hands[i].status == HandStatus::Standing
            &&& best_total(cards) >= 21 ==> (after.active matches Some(j) ==> j > i)
            &&& best_total(cards) < 21 ==> after.hands[i].status == HandStatus::Active && after.active == Some(
                i as usize,
            )
        }),
{
    let i = round.active->0 as int;
    let hand = round.hands[i];
    let updated = crate::round::with_hand(round, i, hit_hand(hand, shoe.last()));
    crate::round::lemma_first_active_from(updated.hands, i + 1);
}

/// Standing completes the active hand without drawing: its cards, its wager,
/// the bankroll and the shoe are unchanged, and play moves past it.
pub proof fn standing_draws_nothing(round: RoundView, bankroll: u64, shoe: Seq<Card>)
    requires
        round_wf(round),
        act_outcome(round, PlayerAction::Stand, bankroll, shoe) is Ok,
    ensures
        ({
            let i = round.active->0 as int;
            let (after, funds, rest) = act_outcome(round, PlayerAction::Stand, bankroll, shoe)->Ok_0;
            &&& round.active is Some
            &&& after.hands.len() == round.hands.len()
            &&& after.hands[i].cards == round.hands[i].cards
            &&& after.hands[i].wager == round.hands[i].wager
            &&& after.hands[i].status == HandStatus::Standing
            &&& funds == bankroll
            &&& rest == shoe
            &&& after.active matches Some(j) ==> j > i
        }),
{
    let i = round.active->0 as int;
    let hand = round.hands[i];
    let updated = crate::round::with_hand(round, i, PlayerHandView { status: HandStatus::Standing, ..hand });
    crate::round::lemma_first_active_from(updated.hands, i + 1);
}

/// Doubling doubles the active hand's wager, taken from the bankroll, adds
/// exactly the top card of the shoe and completes the hand: it busts over
/// twenty-one and stands otherwise, and play moves past it.
pub proof fn doubling_takes_one_card(round: RoundView, bankroll: u64, shoe: Seq<Card>)
    requires
        round_wf(round),
        act_outcome(round, PlayerAction::Double, bankroll, shoe) is Ok,
    ensures
        ({
            let i = round.active->0 as int;
            let (after, funds, rest) = act_outcome(round, PlayerAction::Double, bankroll, shoe)->Ok_0;
            let cards = round.hands[i].cards.push(shoe.last());
            &&& round.active is Some
            &&& round.hands[i].cards.len() == 2
            &&& after.hands.len() == round.hands.len()
            &&& after.hands[i].cards == cards
            &&& after.hands[i].wager == 2 * round.hands[i].wager
            &&& funds == bankroll - round.hands[i].wager
            &&& rest == shoe.drop_last()
            &&& best_total(cards) > 21 ==> after.hands[i].status == HandStatus::Busted
            &&& best_total(cards) <= 21 ==> after.hands[i].status == HandStatus::Standing
            &&& after.active matches Some(j) ==> j > i
        }),
{
    let i = round.active->0 as int;
    let hand = round.hands[i];
    let updated = crate::round::with_hand(round, i, double_hand(hand, shoe.last()));
    crate::round::lemma_first_active_from(updated.hands, i + 1);
    double_needs_two_cards(round, bankroll);
}

/// Doubling is offered only during the player's turns, on an active hand of
/// exactly two cards whose wager the bankroll covers; and every such hand
/// that is not from split Aces is offered it.
pub proof fn double_needs_two_cards(round: RoundView, bankroll: u64)
    ensures
        legal_actions_for(round, bankroll).contains(PlayerAction::Double) ==> {
            &&& round.phase == RoundPhase::PlayerTurns
            &&& round.active is Some
            &&& round.hands[round.active->0 as int].cards.len() == 2
            &&& bankroll >= round.hands[round.active->0 as int].wager
        },
        round.phase == RoundPhase::PlayerTurns && round.active is Some && round.hands[round.active->0 as int].origin
            != HandOrigin::SplitAces && round.hands[round.active->0 as int].cards.len() == 2 && bankroll
            >= round.hands[round.active->0 as int].wager ==> legal_actions_for(round, bankroll).contains(
            PlayerAction::Double,
        ),
        round.phase == RoundPhase::PlayerTurns && round.active is Some && round.hands[round.active->0 as int].origin
            != HandOrigin::SplitAces ==> legal_actions_for(round, bankroll).contains(PlayerAction::Hit)
            && legal_actions_for(round, bankroll).contains(PlayerAction::Stand),
{
    if let Some(i) = round.active {
        if round.phase == RoundPhase::PlayerTurns {
            let hand = round.hands[i as int];
            let split: Seq<PlayerAction> = if crate::round::can_split_at(round, i as int, bankroll) {
                seq![PlayerAction::Split]
            } else {
                Seq::empty()
            };
            if hand.origin != HandOrigin::SplitAces {
                let double: Seq<PlayerAction> = if hand.cards.len() == 2 && bankroll >= hand.wager {
                    seq![PlayerAction::Double]
                } else {
                    Seq::empty()
                };
                let all = seq![PlayerAction::Hit, PlayerAction::Stand] + double + split;
                if all.contains(PlayerAction::Double) {
                    let k = choose|k: int| 0 <= k < all.len() && all[k] == PlayerAction::Double;
                    assert(k >= 2);
                    if k >= 2 + double.len() {
                        assert(all[k] == split[k - 2 - double.len()]);
                    }
                }
                if hand.cards.len() == 2 && bankroll >= hand.wager {
                    assert(all[2] == PlayerAction::Double);
                }
                assert(all[0] == PlayerAction::Hit && all[1] == PlayerAction::Stand);
            } else {
                if split.contains(PlayerAction::Double) {
                    let k = choose|k: int| 0 <= k < split.len() && split[k] == PlayerAction::Double;
                }
            }
        }
    }
}

/// Doubling takes exactly one card and completes the hand.
pub proof fn double_completes_the_hand(hand: PlayerHandView, card: Card)
    ensures
        double_hand(hand, card).cards == hand.cards.push(card),
        double_hand(hand, card).status != HandStatus::Active,
        best_total(hand.cards.push(card)) > 21 ==> double_hand(hand, card).status == HandStatus::Busted,
        best_total(hand.cards.push(card)) <= 21 ==> double_hand(hand, card).status == HandStatus::Standing,
        double_hand(hand, card).wager == hand.wager * 2 || hand.wager * 2 > u64::MAX,
{
}

// ---------------------------------------------------------------------------
// The dealer
// ---------------------------------------------------------------------------

/// The dealer's turn: when some player hand is live, the dealer draws from
/// the top of the shoe until reaching a total it stands on (seventeen or
/// more, and a soft seventeen only when the table stands on it); when every
/// hand has busted, the dealer draws nothing.
pub proof fn dealer_follows_house_rules(round: RoundView, shoe: Seq<Card>)
    requires
        dealer_turn_outcome(round, shoe) is Ok,
    ensures
        ({
            let (after, rest) = dealer_turn_outcome(round, shoe)->Ok_0;
            &&& has_live_hand(round.hands) ==> {
                &&& !dealer_should_hit(after.dealer, round.rules.soft_17())
                &&& after.dealer.subrange(0, round.dealer.len() as int) == round.dealer
                &&& after.dealer.subrange(round.dealer.len() as int, after.dealer.len() as int) == top_cards(
                    shoe,
                    shoe.len() - rest.len(),
                )
                &&& rest == shoe.subrange(0, rest.len() as int)
            }
            &&& !has_live_hand(round.hands) ==> after.dealer == round.dealer && rest == shoe
            &&& after.phase == RoundPhase::Settled
        }),
{
    lemma_dealer_play(round.dealer, shoe, round.rules.soft_17());
}

/// The dealer plays whenever any player hand, at any position, has not
/// busted: the dealer then ends on seventeen or more, having drawn from the
/// top of the shoe. Only when every hand has busted does the dealer keep the
/// two dealt cards and leave the shoe untouched.
pub proof fn dealer_draws_while_any_hand_lives(round: RoundView, shoe: Seq<Card>)
    requires
        dealer_turn_outcome(round, shoe) is Ok,
    ensures
        ({
            let (after, rest) = dealer_turn_outcome(round, shoe)->Ok_0;
            &&& (exists|k: int| 0 <= k < round.hands.len() && #[trigger] round.hands[k].status != HandStatus::Busted)
                ==> {
                &&& best_total(after.dealer) >= 17
                &&& after.dealer.subrange(0, round.dealer.len() as int) == round.dealer
                &&& after.dealer.len() + rest.len() == round.dealer.len() + shoe.len()
            }
            &&& (forall|k: int| 0 <= k < round.hands.len() ==> #[trigger] round.hands[k].status == HandStatus::Busted)
                ==> after.dealer == round.dealer && rest == shoe
            &&& after.hands == round.hands
        }),
{
    lemma_dealer_play(round.dealer, shoe, round.rules.soft_17());
    if exists|k: int| 0 <= k < round.hands.len() && #[trigger] round.hands[k].status != HandStatus::Busted {
        let k = choose|k: int| 0 <= k < round.hands.len() && #[trigger] round.hands[k].status != HandStatus::Busted;
        assert(has_live_hand(round.hands));
        let (after, rest) = dealer_turn_outcome(round, shoe)->Ok_0;
        assert(!dealer_should_hit(after.dealer, round.rules.soft_17()));
    }
    if forall|k: int| 0 <= k < round.hands.len() ==> #[trigger] round.hands[k].status == HandStatus::Busted {
        assert(!has_live_hand(round.hands));
    }
}

/// The dealer never stands below seventeen and never hits a hard seventeen.
pub proof fn dealer_stand_rule(cards: Seq<Card>, rule: crate::rules::Soft17Rule)
    ensures
        best_total(cards) < 17 ==> dealer_should_hit(cards, rule),
        best_total(cards) > 17 ==> !dealer_should_hit(cards, rule),
        best_total(cards) == 17 && !is_soft_cards(cards) ==> !dealer_should_hit(cards, rule),
        best_total(cards) == 17 && is_soft_cards(cards) ==> (dealer_should_hit(cards, rule) <==> rule
            == crate::rules::Soft17Rule::Hit),
{
}

// ---------------------------------------------------------------------------
// Settlement
// ---------------------------------------------------------------------------

/// Winning insurance returns the stake plus two to one; losing insurance
/// returns nothing. The total credit is the hands' credit plus the insurance
/// credit.
pub proof fn insurance_pays_two_to_one(round: RoundView, dealer: Seq<Card>)
    requires
        settlement_for(round, dealer) is Ok,
    ensures
        ({
            let settlement = settlement_for(round, dealer)->Ok_0;
            &&& crate::hand::is_two_card_21(dealer) ==> settlement.insurance_credit == round.insurance_wager * 3
            &&& !crate::hand::is_two_card_21(dealer) ==> settlement.insurance_credit == 0
            &&& settlement.total_credit == settlement.main_credit + settlement.insurance_credit
            &&& settlement.insurance_wager == round.insurance_wager
        }),
{
}

/// The credit of each outcome, stake included: nothing for a bust or loss,
/// the stake for a push, twice the stake for a win, and the stake plus the
/// table's profit for a natural.
pub proof fn credits_by_outcome(wager: u64, payout: crate::rules::BlackjackPayout)
    requires
        wager * 2 <= u64::MAX,
        (wager * payout.ratio().0) % (payout.ratio().1 as int) == 0,
    ensures
        credit_for(RoundOutcome::Bust, wager, payout) == Ok::<u64, crate::money::MoneyError>(0),
        credit_for(RoundOutcome::Loss, wager, payout) == Ok::<u64, crate::money::MoneyError>(0),
        credit_for(RoundOutcome::Push, wager, payout) == Ok::<u64, crate::money::MoneyError>(wager),
        credit_for(RoundOutcome::Win, wager, payout) == Ok::<u64, crate::money::MoneyError>((wager * 2) as u64),
        wager * payout.ratio().0 <= u64::MAX ==> credit_for(RoundOutcome::Blackjack, wager, payout) == Ok::<
            u64,
            crate::money::MoneyError,
        >((wager + wager * payout.ratio().0 / (payout.ratio().1 as int)) as u64),
{
    let n = payout.ratio().0 as int;
    let d = payout.ratio().1 as int;
    assert(wager * n / d <= wager * 2) by (nonlinear_arith)
        requires
            (n == 3 && d == 2) || (n == 6 && d == 5),
            wager >= 0,
    ;
}

// ---------------------------------------------------------------------------
// The session
// ---------------------------------------------------------------------------

/// Moving the session on keeps every stake: the dealer's play and the
/// settlement change no wager, and a settled round's total credit is added
/// to the bankroll exactly when the round leaves play.
pub proof fn advance_credits_settlement_once(session: SessionView)
    requires
        session.active is Some,
        advance_outcome(session).0 is Ok,
    ensures
        ({
            let (round, _) = session.active->0;
            let after = advance_outcome(session).1;
            &&& after.active matches Some((played, _)) ==> after.bankroll == session.bankroll && staked(played)
                == staked(round) && after.completed == session.completed
            &&& after.active is None ==> (after.completed matches Some((settled, settlement)) && staked(settled)
                == staked(round) && after.bankroll == session.bankroll + settlement.total_credit)
        }),
{
    let (round, shoe) = session.active->0;
    if round.phase == RoundPhase::DealerTurn {
        if let Ok((played, _)) = dealer_turn_outcome(round, shoe) {
            assert(played.hands == round.hands);
            assert(played.insurance_wager == round.insurance_wager);
        }
    }
}

/// Chips are accounted for across a player action in the session: while the
/// round stays in play, the bankroll plus the stake is unchanged; once it
/// settles, the bankroll holds what it held plus the stake before the
/// action, less the stake, plus the settlement's total credit.
pub proof fn session_actions_account_for_chips(session: SessionView, action: PlayerAction)
    requires
        session_wf(session),
        session.active is Some,
        session_act_outcome(session, action).0 is Ok,
    ensures
        ({
            let (round, _) = session.active->0;
            let after = session_act_outcome(session, action).1;
            &&& after.active matches Some((played, _)) ==> after.bankroll + staked(played) == session.bankroll
                + staked(round)
            &&& after.active is None ==> (after.completed matches Some((settled, settlement)) && after.bankroll
                + staked(settled) == session.bankroll + staked(round) + settlement.total_credit)
        }),
{
    let (round, shoe) = session.active->0;
    actions_conserve_chips(round, action, session.bankroll, shoe);
    let (played, funds, rest) = act_outcome(round, action, session.bankroll, shoe)->Ok_0;
    advance_credits_settlement_once(SessionView { bankroll: funds, active: Some((played, rest)), ..session });
}

/// Chips are accounted for across insurance in the session, as for an
/// action, for a round that holds no insurance yet.
pub proof fn session_insurance_accounts_for_chips(session: SessionView, amount: Chips)
    requires
        session_wf(session),
        session.active matches Some((round, _)) && round.insurance_wager == 0,
        session_insurance_outcome(session, amount).0 is Ok,
    ensures
        ({
            let (round, _) = session.active->0;
            let after = session_insurance_outcome(session, amount).1;
            &&& after.active matches Some((played, _)) ==> after.bankroll + staked(played) == session.bankroll
                + staked(round)
            &&& after.active is None ==> (after.completed matches Some((settled, settlement)) && after.bankroll
                + staked(settled) == session.bankroll + staked(round) + settlement.total_credit)
        }),
{
    let (round, shoe) = session.active->0;
    insurance_conserves_chips(round, amount, Chips::spec_new(session.bankroll));
    let (_, insured, funds) = insurance_outcome(round, amount, Chips::spec_new(session.bankroll));
    advance_credits_settlement_once(SessionView { bankroll: funds, active: Some((insured, shoe)), ..session });
}

/// Moving the session on fails only for reasons the player cannot correct.
proof fn lemma_advance_errors_are_fatal(session: SessionView)
    ensures
        advance_outcome(session).0 matches Err(e) ==> !is_recoverable(e),
{
    if let Some((round, shoe)) = session.active {
        if round.phase == RoundPhase::DealerTurn {
            let drawn = if has_live_hand(round.hands) {
                dealer_play(round.dealer, shoe, round.rules.soft_17())
            } else {
                Some((round.dealer, shoe))
            };
            if let Some((dealer, _)) = drawn {
                lemma_settle_from_error(round.hands, dealer, round.rules.blackjack_payout(), 0, Seq::empty(), 0);
            }
        }
    }
}

/// An action the player may correct (an illegal action, or one the bankroll
/// cannot cover) is refused with the session left exactly as it was: every
/// other failure comes from the dealer's play or the settlement, which the
/// player cannot correct.
pub proof fn refused_actions_change_nothing(session: SessionView, action: PlayerAction)
    ensures
        session_act_outcome(session, action).0 matches Err(e) && is_recoverable(e) ==> session_act_outcome(
            session,
            action,
        ).1 == session,
{
    if let Some((round, shoe)) = session.active {
        if let Ok((played, funds, rest)) = act_outcome(round, action, session.bankroll, shoe) {
            lemma_advance_errors_are_fatal(SessionView { bankroll: funds, active: Some((played, rest)), ..session });
        }
    }
}

/// An insurance offer the player may correct (a stake above half the wager,
/// or one the bankroll cannot cover) is refused with the session left
/// exactly as it was.
pub proof fn refused_insurance_changes_nothing(session: SessionView, amount: Chips)
    ensures
        session_insurance_outcome(session, amount).0 matches Err(e) && is_recoverable(e)
            ==> session_insurance_outcome(session, amount).1 == session,
{
    if let Some((round, shoe)) = session.active {
        let (result, insured, funds) = insurance_outcome(round, amount, Chips::spec_new(session.bankroll));
        if result is Ok {
            lemma_advance_errors_are_fatal(SessionView { bankroll: funds, active: Some((insured, shoe)), ..session });
        } else if round.phase == RoundPhase::InsuranceOffer {
            if let Ok(maximum) = Chips::ratio_result(Chips::spec_new(round.original_wager), 1, 2) {
                if amount@ <= maximum@ && amount@ <= session.bankroll {
                    let staked = RoundView { insurance_wager: amount@, ..round };
                    lemma_settle_from_error(
                        staked.hands,
                        staked.dealer,
                        staked.rules.blackjack_payout(),
                        0,
                        Seq::empty(),
                        0,
                    );
                }
            }
        }
    }
}

/// Starting a round reserves its wager: the bankroll drops by the wager and
/// the new round carries it, unless the deal settles the round at once, in
/// which case the settlement's total credit is added back.
pub proof fn starting_a_round_reserves_the_wager(session: SessionView, wager: Chips, shoe: Seq<Card>)
    requires
        start_check(session, wager) is Ok,
        deal_outcome(session, wager, start_check(session, wager)->Ok_0, shoe).0 is Ok,
    ensures
        ({
            let after = deal_outcome(session, wager, start_check(session, wager)->Ok_0, shoe).1;
            &&& after.active matches Some((round, _)) ==> after.bankroll == session.bankroll - wager@ && staked(round)
                == wager@
            &&& after.active is None ==> (after.completed matches Some((settled, settlement)) && after.bankroll
                == session.bankroll - wager@ + settlement.total_credit && staked(settled) == wager@)
        }),
{
    let remaining = start_check(session, wager)->Ok_0;
    let round = crate::round::dealt_round(wager@, session.rules, top_cards(shoe, 4))->Ok_0;
    lemma_wagers_total_single(round.hands[0]);
    assert(round.hands =~= seq![round.hands[0]]);
    advance_credits_settlement_once(
        SessionView { bankroll: remaining, active: Some((round, shoe.subrange(0, shoe.len() - 4))), ..session },
    );
}

/// The sum of the credits of settled hands.
pub open spec fn credits_sum(results: Seq<HandResult>) -> int
    decreases results.len(),
{
    if results.len() == 0 {
        0
    } else {
        credits_sum(results.drop_last()) + results.last().credit
    }
}

/// Settling hands `index..` appends one result per hand, in order, and adds
/// their credits to the running main credit.
proof fn lemma_settle_from_ok(
    hands: Seq<PlayerHandView>,
    dealer: Seq<Card>,
    payout: BlackjackPayout,
    index: int,
    results: Seq<HandResult>,
    main: u64,
)
    requires
        0 <= index <= hands.len(),
        settle_from(hands, dealer, payout, index, results, main) is Ok,
    ensures
        ({
            let (settled, total) = settle_from(hands, dealer, payout, index, results, main)->Ok_0;
            &&& settled.len() == results.len() + hands.len() - index
            &&& settled.subrange(0, results.len() as int) == results
            &&& forall|k: int|
                index <= k < hands.len() ==> {
                    let outcome = outcome_for(hands[k], dealer);
                    &&& (#[trigger] settled[results.len() + k - index]).outcome == outcome
                    &&& settled[results.len() + k - index].wager == hands[k].wager
                    &&& credit_for(outcome, hands[k].wager, payout) == Ok::<u64, crate::money::MoneyError>(
                        settled[results.len() + k - index].credit,
                    )
                }
            &&& total == main + credits_sum(settled) - credits_sum(results)
        }),
    decreases hands.len() - index,
{
    if index < hands.len() {
        let hand = hands[index];
        let outcome = outcome_for(hand, dealer);
        let credit = credit_for(outcome, hand.wager, payout)->Ok_0;
        let result = HandResult { outcome, wager: hand.wager, credit };
        let longer = results.push(result);
        lemma_settle_from_ok(hands, dealer, payout, index + 1, longer, (main + credit) as u64);
        let (settled, total) = settle_from(hands, dealer, payout, index, results, main)->Ok_0;
        assert(settled.subrange(0, longer.len() as int)[results.len() as int] == result);
        assert(settled.subrange(0, results.len() as int) =~= settled.subrange(0, longer.len() as int).subrange(
            0,
            results.len() as int,
        ));
        assert(longer.subrange(0, results.len() as int) =~= results);
        assert(longer.drop_last() =~= results);
        assert forall|k: int| index <= k < hands.len() implies {
            let outcome = outcome_for(hands[k], dealer);
            &&& (#[trigger] settled[results.len() + k - index]).outcome == outcome
            &&& settled[results.len() + k - index].wager == hands[k].wager
            &&& credit_for(outcome, hands[k].wager, payout) == Ok::<u64, crate::money::MoneyError>(
                settled[results.len() + k - index].credit,
            )
        } by {
            if k > index {
                assert(longer.len() + k - (index + 1) == results.len() + k - index);
                assert(settled[longer.len() + k - (index + 1)].outcome == outcome_for(hands[k], dealer));
            }
        }
    } else {
        assert(results.subrange(0, results.len() as int) =~= results);
    }
}

/// A settled round holds the settlement the table's rules give: one result
/// per hand, in order, carrying the hand's outcome against the dealer's
/// cards, its wager and the credit that outcome earns (nothing for a bust or
/// loss, the stake for a push, twice the stake for a win, the stake plus an
/// exact natural profit for a blackjack); the main credit is the sum of the
/// hands' credits, insurance returns three times its stake against a dealer
/// natural, and the total is the main credit plus the insurance credit.
pub proof fn stored_settlement_follows_the_rules(round: RoundView)
    requires
        round_wf(round),
        round.settlement is Some,
    ensures
        ({
            let settlement = round.settlement->0;
            let (numerator, denominator) = round.rules.blackjack_payout().ratio();
            &&& settlement.results.len() == round.hands.len()
            &&& forall|k: int|
                0 <= k < round.hands.len() ==> {
                    let hand = round.hands[k];
                    let result = #[trigger] settlement.results[k];
                    &&& result.outcome == outcome_for(hand, round.dealer)
                    &&& best_total(hand.cards) > 21 ==> result.outcome == RoundOutcome::Bust && result.credit == 0
                    &&& result.wager == hand.wager
                    &&& result.credit == match result.outcome {
                        RoundOutcome::Bust | RoundOutcome::Loss => 0,
                        RoundOutcome::Push => hand.wager as int,
                        RoundOutcome::Win => 2 * hand.wager,
                        RoundOutcome::Blackjack => hand.wager + hand.wager * numerator / denominator as int,
                    }
                    &&& result.outcome == RoundOutcome::Blackjack ==> (hand.wager * numerator) % denominator as int
                        == 0
                }
            &&& settlement.main_credit == credits_sum(settlement.results)
            &&& settlement.insurance_wager == round.insurance_wager
            &&& settlement.insurance_credit == (if is_two_card_21(round.dealer) {
                3 * round.insurance_wager
            } else {
                0
            })
            &&& settlement.total_credit == settlement.main_credit + settlement.insurance_credit
        }),
{
    let payout = round.rules.blackjack_payout();
    lemma_settle_from_ok(round.hands, round.dealer, payout, 0, Seq::empty(), 0);
    let settled = settle_from(round.hands, round.dealer, payout, 0, Seq::empty(), 0)->Ok_0.0;
    // The helper's results are indexed from the empty prefix on.
    assert forall|k: int| 0 <= k < round.hands.len() implies #[trigger] settled[k] == settled[0 + k - 0] by {}
}

// ---------------------------------------------------------------------------
// The shoe
// ---------------------------------------------------------------------------

/// Position of a rank within one suit of a fresh deck.
spec fn rank_index(rank: Rank) -> int {
    match rank {
        Rank::Ace => 0,
        Rank::Two => 1,
        Rank::Three => 2,
        Rank::Four => 3,
        Rank::Five => 4,
        Rank::Six => 5,
        Rank::Seven => 6,
        Rank::Eight => 7,
        Rank::Nine => 8,
        Rank::Ten => 9,
        Rank::Jack => 10,
        Rank::Queen => 11,
        Rank::King => 12,
    }
}

/// Position of a suit's run of thirteen cards within a fresh deck.
spec fn suit_index(suit: Suit) -> int {
    match suit {
        Suit::Clubs => 0,
        Suit::Diamonds => 1,
        Suit::Hearts => 2,
        Suit::Spades => 3,
    }
}

/// Where a card lies within one fresh deck.
spec fn deck_position(card: Card) -> int {
    13 * suit_index(card.suit()) + rank_index(card.rank())
}

/// Within one deck, a card lies at exactly one position.
proof fn lemma_fresh_card_position(index: int, card: Card)
    requires
        0 <= index < 52,
    ensures
        (fresh_card(index) == card) <==> index == deck_position(card),
{
    let rank = rank_at(index % 13);
    let suit = suit_at((index / 13) % 4);
    Card::lemma_card_of(rank, suit);
    Card::lemma_card_is_card_of(card);
    assert(rank_at(rank_index(card.rank())) == card.rank());
    assert(suit_at(suit_index(card.suit())) == card.suit());
    if fresh_card(index) == card {
        assert(index % 13 == rank_index(card.rank()));
        assert((index / 13) % 4 == suit_index(card.suit()));
    }
    if index == deck_position(card) {
        assert(index % 13 == rank_index(card.rank()));
        assert(index / 13 == suit_index(card.suit()));
        assert(card_of(card.rank(), card.suit()) == card);
    }
}

/// The first `count` cards of a fresh deck hold a card once if its position
/// is among them, and not otherwise.
proof fn lemma_deck_prefix_count(count: int, card: Card)
    requires
        0 <= count <= 52,
    ensures
        standard_shoe(1).take(count).to_multiset().count(card) == (if deck_position(card) < count { 1nat } else { 0nat }),
    decreases count,
{
    broadcast use vstd::seq_lib::group_to_multiset_ensures, vstd::multiset::group_multiset_axioms;

    let deck = standard_shoe(1);
    if count == 0 {
        assert(deck.take(0) =~= Seq::<Card>::empty());
    } else {
        lemma_deck_prefix_count(count - 1, card);
        assert(deck.take(count) =~= deck.take(count - 1).push(deck[count - 1]));
        lemma_fresh_card_position(count - 1, card);
    }
}

/// Each further deck repeats the first.
proof fn lemma_shoe_grows_by_a_deck(deck_count: nat)
    ensures
        standard_shoe(deck_count + 1) =~= standard_shoe(deck_count) + standard_shoe(1),
{
    assert forall|i: int| 0 <= i < 52 implies #[trigger] fresh_card(deck_count * 52 + i) == fresh_card(i) by {
        let q = i / 13;
        let r = i % 13;
        assert(deck_count * 52 + i == (deck_count * 4 + q) * 13 + r) by (nonlinear_arith)
            requires
                i == q * 13 + r,
        ;
        vstd::arithmetic::div_mod::lemma_fundamental_div_mod_converse(deck_count * 52 + i, 13, deck_count * 4 + q, r);
        vstd::arithmetic::div_mod::lemma_fundamental_div_mod_converse(deck_count * 4 + q, 4, deck_count as int, q);
        vstd::arithmetic::div_mod::lemma_fundamental_div_mod_converse(q, 4, 0, q);
    }
    let longer = standard_shoe(deck_count + 1);
    let joined = standard_shoe(deck_count) + standard_shoe(1);
    assert((deck_count + 1) * 52 == deck_count * 52 + 52) by (nonlinear_arith);
    assert forall|i: int| 0 <= i < longer.len() implies longer[i] == joined[i] by {
        if i >= deck_count * 52 {
            assert(fresh_card(deck_count * 52 + (i - deck_count * 52)) == fresh_card(i - deck_count * 52));
        }
    }
}

/// A fresh shoe of `deck_count` decks holds fifty-two cards per deck, and
/// every card exactly `deck_count` times. A shuffled shoe holds the same
/// cards as a fresh one, so the same holds of every shoe a table deals from.
pub proof fn every_card_once_per_deck(deck_count: nat, card: Card)
    ensures
        standard_shoe(deck_count).len() == deck_count * 52,
        standard_shoe(deck_count).to_multiset().count(card) == deck_count,
    decreases deck_count,
{
    broadcast use vstd::seq_lib::lemma_multiset_commutative, vstd::multiset::group_multiset_axioms;

    if deck_count == 0 {
        assert(standard_shoe(0) =~= Seq::<Card>::empty());
        vstd::seq_lib::to_multiset_contains(standard_shoe(0), card);
    } else {
        let fewer = (deck_count - 1) as nat;
        every_card_once_per_deck(fewer, card);
        lemma_shoe_grows_by_a_deck(fewer);
        lemma_deck_prefix_count(52, card);
        assert(standard_shoe(1).take(52) =~= standard_shoe(1));
        assert(deck_position(card) < 52);
        assert(fewer + 1 == deck_count);
        let joined = standard_shoe(fewer) + standard_shoe(1);
        assert(standard_shoe(deck_count) == joined);
        assert(joined.to_multiset() =~= standard_shoe(fewer).to_multiset().add(standard_shoe(1).to_multiset()));
    }
}

} // verus!
