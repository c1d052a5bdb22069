use blackjackrs::card::{Card, Rank, Suit};
use blackjackrs::money::Chips;
use blackjackrs::round::{HandStatus, PlayerAction, Round, RoundError, RoundOutcome, RoundPhase};
use blackjackrs::rules::{BlackjackPayout, Soft17Rule, TableRules};
use blackjackrs::shoe::{Shoe, ShoeError};

fn card(rank: Rank) -> Card {
    Card::new(rank, Suit::Spades)
}

fn rules() -> TableRules {
    configured_rules(Soft17Rule::Stand, BlackjackPayout::ThreeToTwo)
}

fn configured_rules(soft_17: Soft17Rule, payout: BlackjackPayout) -> TableRules {
    TableRules::new(1, soft_17, payout).expect("valid test rules")
}

fn deal_with_draws(
    player: [Rank; 2],
    dealer: [Rank; 2],
    draws: impl IntoIterator<Item = Rank>,
) -> (Round, Shoe) {
    let initial = [player[0], dealer[0], player[1], dealer[1]];
    let mut shoe = Shoe::ordered(initial.into_iter().chain(draws).map(card).collect());
    let round = Round::deal(Chips::new(10), rules(), &mut shoe).expect("deal succeeds");
    (round, shoe)
}

fn deal_with_rules(
    player: [Rank; 2],
    dealer: [Rank; 2],
    draws: impl IntoIterator<Item = Rank>,
    table_rules: TableRules,
) -> (Round, Shoe) {
    let initial = [player[0], dealer[0], player[1], dealer[1]];
    let mut shoe = Shoe::ordered(initial.into_iter().chain(draws).map(card).collect());
    let round = Round::deal(Chips::new(10), table_rules, &mut shoe).expect("deal succeeds");
    (round, shoe)
}

#[test]
fn deal_uses_player_upcard_player_hole_order() {
    let (round, _) = deal_with_draws([Rank::Five, Rank::Six], [Rank::Nine, Rank::Seven], []);

    assert_eq!(
        round.player_hands()[0].hand().cards(),
        &[card(Rank::Five), card(Rank::Six)]
    );
    assert_eq!(round.dealer_upcard(), card(Rank::Nine));
    assert_eq!(
        round.dealer_hand().cards(),
        &[card(Rank::Nine), card(Rank::Seven)]
    );
    assert_eq!(round.phase(), RoundPhase::PlayerTurns);
    assert_eq!(round.active_hand_index(), Some(0));
}

#[test]
fn ace_upcard_offers_insurance_before_peek() {
    let (round, _) = deal_with_draws([Rank::Nine, Rank::Seven], [Rank::Ace, Rank::King], []);

    assert_eq!(round.phase(), RoundPhase::InsuranceOffer);
    assert!(round.legal_actions(Chips::new(100)).is_empty());
}

#[test]
fn ten_value_upcard_peeks_and_ends_on_dealer_natural() {
    let (round, _) = deal_with_draws([Rank::Nine, Rank::Seven], [Rank::Queen, Rank::Ace], []);

    assert_eq!(round.phase(), RoundPhase::Settled);
    assert_eq!(round.active_hand_index(), None);
}

#[test]
fn player_natural_ends_when_dealer_cannot_have_blackjack() {
    let (round, _) = deal_with_draws([Rank::Ace, Rank::King], [Rank::Nine, Rank::Seven], []);

    assert_eq!(round.phase(), RoundPhase::Settled);
    assert_eq!(round.player_hands()[0].status(), HandStatus::Standing);
}

#[test]
fn legal_actions_include_double_only_when_two_cards_and_funded() {
    let (round, _) = deal_with_draws([Rank::Five, Rank::Six], [Rank::Nine, Rank::Seven], []);

    assert_eq!(
        round.legal_actions(Chips::new(10)),
        vec![PlayerAction::Hit, PlayerAction::Stand, PlayerAction::Double]
    );
    assert_eq!(
        round.legal_actions(Chips::new(9)),
        vec![PlayerAction::Hit, PlayerAction::Stand]
    );
}

#[test]
fn hit_draws_one_card_and_bust_completes_player_turns() {
    let (mut round, mut shoe) = deal_with_draws(
        [Rank::King, Rank::Six],
        [Rank::Nine, Rank::Seven],
        [Rank::Queen],
    );
    let mut bankroll = Chips::new(90);

    round
        .act(PlayerAction::Hit, &mut bankroll, &mut shoe)
        .expect("legal hit");

    assert_eq!(round.player_hands()[0].status(), HandStatus::Busted);
    assert_eq!(round.player_hands()[0].hand().cards().len(), 3);
    assert_eq!(round.phase(), RoundPhase::DealerTurn);
    assert_eq!(bankroll, Chips::new(90));
}

#[test]
fn stand_completes_the_active_hand_without_drawing() {
    let (mut round, mut shoe) = deal_with_draws(
        [Rank::Ten, Rank::Seven],
        [Rank::Nine, Rank::Seven],
        [Rank::Ace],
    );
    let mut bankroll = Chips::new(90);

    round
        .act(PlayerAction::Stand, &mut bankroll, &mut shoe)
        .expect("legal stand");

    assert_eq!(round.player_hands()[0].status(), HandStatus::Standing);
    assert_eq!(round.phase(), RoundPhase::DealerTurn);
    assert_eq!(shoe.len(), 1);
}

#[test]
fn double_reserves_one_wager_draws_once_and_stands() {
    let (mut round, mut shoe) = deal_with_draws(
        [Rank::Five, Rank::Six],
        [Rank::Nine, Rank::Seven],
        [Rank::King, Rank::Ace],
    );
    let mut bankroll = Chips::new(90);

    round
        .act(PlayerAction::Double, &mut bankroll, &mut shoe)
        .expect("legal double");

    assert_eq!(bankroll, Chips::new(80));
    assert_eq!(round.player_hands()[0].wager(), Chips::new(20));
    assert_eq!(round.player_hands()[0].hand().value().total, 21);
    assert_eq!(round.player_hands()[0].status(), HandStatus::Standing);
    assert_eq!(shoe.len(), 1);
}

#[test]
fn illegal_action_does_not_mutate_round_bankroll_or_shoe() {
    let (mut round, mut shoe) = deal_with_draws(
        [Rank::Five, Rank::Six],
        [Rank::Nine, Rank::Seven],
        [Rank::King],
    );
    let mut bankroll = Chips::new(90);

    assert_eq!(
        round.act(PlayerAction::Split, &mut bankroll, &mut shoe),
        Err(RoundError::IllegalAction(PlayerAction::Split))
    );
    assert_eq!(bankroll, Chips::new(90));
    assert_eq!(shoe.len(), 1);
    assert_eq!(round.player_hands()[0].hand().cards().len(), 2);
}

#[test]
fn exhausted_shoe_does_not_partially_apply_hit() {
    let (mut round, mut shoe) =
        deal_with_draws([Rank::Five, Rank::Six], [Rank::Nine, Rank::Seven], []);
    let mut bankroll = Chips::new(90);

    assert_eq!(
        round.act(PlayerAction::Hit, &mut bankroll, &mut shoe),
        Err(RoundError::Shoe(ShoeError::InsufficientCards {
            requested: 1,
            remaining: 0,
        }))
    );
    assert_eq!(bankroll, Chips::new(90));
    assert_eq!(round.player_hands()[0].hand().cards().len(), 2);
    assert_eq!(round.phase(), RoundPhase::PlayerTurns);
}

#[test]
fn equal_value_cards_can_split_when_funded() {
    let (round, _) = deal_with_draws([Rank::King, Rank::Queen], [Rank::Nine, Rank::Seven], []);

    assert!(
        round
            .legal_actions(Chips::new(10))
            .contains(&PlayerAction::Split)
    );
    assert!(
        !round
            .legal_actions(Chips::new(9))
            .contains(&PlayerAction::Split)
    );
}

#[test]
fn split_reserves_matching_wager_and_deals_to_both_hands() {
    let (mut round, mut shoe) = deal_with_draws(
        [Rank::Eight, Rank::Eight],
        [Rank::Nine, Rank::Seven],
        [Rank::Three, Rank::King],
    );
    let mut bankroll = Chips::new(90);

    round
        .act(PlayerAction::Split, &mut bankroll, &mut shoe)
        .expect("legal split");

    assert_eq!(bankroll, Chips::new(80));
    assert_eq!(round.player_hands().len(), 2);
    assert_eq!(
        round.player_hands()[0].hand().cards(),
        &[card(Rank::Eight), card(Rank::Three)]
    );
    assert_eq!(
        round.player_hands()[1].hand().cards(),
        &[card(Rank::Eight), card(Rank::King)]
    );
    assert_eq!(round.active_hand_index(), Some(0));
}

#[test]
fn double_remains_legal_after_split() {
    let (mut round, mut shoe) = deal_with_draws(
        [Rank::Eight, Rank::Eight],
        [Rank::Nine, Rank::Seven],
        [Rank::Three, Rank::Two, Rank::King],
    );
    let mut bankroll = Chips::new(90);

    round
        .act(PlayerAction::Split, &mut bankroll, &mut shoe)
        .expect("legal split");
    round
        .act(PlayerAction::Double, &mut bankroll, &mut shoe)
        .expect("double after split");

    assert_eq!(round.player_hands()[0].wager(), Chips::new(20));
    assert_eq!(round.player_hands()[0].hand().value().total, 21);
    assert_eq!(round.active_hand_index(), Some(1));
    assert_eq!(bankroll, Chips::new(70));
}

#[test]
fn resplitting_stops_at_four_total_hands() {
    let (mut round, mut shoe) = deal_with_draws(
        [Rank::Eight, Rank::Eight],
        [Rank::Nine, Rank::Seven],
        [
            Rank::Eight,
            Rank::Eight,
            Rank::Eight,
            Rank::Two,
            Rank::Three,
            Rank::Four,
        ],
    );
    let mut bankroll = Chips::new(90);

    round
        .act(PlayerAction::Split, &mut bankroll, &mut shoe)
        .expect("first split");
    round
        .act(PlayerAction::Split, &mut bankroll, &mut shoe)
        .expect("first resplit");
    round
        .act(PlayerAction::Split, &mut bankroll, &mut shoe)
        .expect("second resplit");
    round
        .act(PlayerAction::Stand, &mut bankroll, &mut shoe)
        .expect("stand first");
    round
        .act(PlayerAction::Stand, &mut bankroll, &mut shoe)
        .expect("stand second");
    round
        .act(PlayerAction::Stand, &mut bankroll, &mut shoe)
        .expect("stand third");

    assert_eq!(round.player_hands().len(), 4);
    assert_eq!(round.active_hand_index(), Some(3));
    assert!(!round.legal_actions(bankroll).contains(&PlayerAction::Split));
    assert_eq!(
        round.act(PlayerAction::Split, &mut bankroll, &mut shoe),
        Err(RoundError::IllegalAction(PlayerAction::Split))
    );
}

#[test]
fn split_aces_take_one_card_each_and_stand() {
    let (mut round, mut shoe) = deal_with_draws(
        [Rank::Ace, Rank::Ace],
        [Rank::Nine, Rank::Seven],
        [Rank::Nine, Rank::King],
    );
    let mut bankroll = Chips::new(90);

    round
        .act(PlayerAction::Split, &mut bankroll, &mut shoe)
        .expect("legal split");

    assert_eq!(round.player_hands().len(), 2);
    assert!(round.player_hands().iter().all(|hand| {
        hand.hand().cards().len() == 2 && hand.status() == HandStatus::Standing
    }));
    assert_eq!(round.phase(), RoundPhase::DealerTurn);
}

#[test]
fn split_aces_can_resplit_when_another_ace_is_dealt() {
    let (mut round, mut shoe) = deal_with_draws(
        [Rank::Ace, Rank::Ace],
        [Rank::Nine, Rank::Seven],
        [Rank::Ace, Rank::Nine, Rank::Five, Rank::Six],
    );
    let mut bankroll = Chips::new(90);

    round
        .act(PlayerAction::Split, &mut bankroll, &mut shoe)
        .expect("split Aces");
    assert_eq!(round.legal_actions(bankroll), vec![PlayerAction::Split]);
    round
        .act(PlayerAction::Split, &mut bankroll, &mut shoe)
        .expect("resplit Aces");

    assert_eq!(round.player_hands().len(), 3);
    assert!(
        round
            .player_hands()
            .iter()
            .all(|hand| hand.status() == HandStatus::Standing)
    );
    assert_eq!(round.phase(), RoundPhase::DealerTurn);
}

#[test]
fn post_split_twenty_one_is_not_a_natural() {
    let (mut round, mut shoe) = deal_with_draws(
        [Rank::King, Rank::Queen],
        [Rank::Nine, Rank::Seven],
        [Rank::Ace, Rank::Ace],
    );
    let mut bankroll = Chips::new(90);

    round
        .act(PlayerAction::Split, &mut bankroll, &mut shoe)
        .expect("legal split");

    assert!(
        round
            .player_hands()
            .iter()
            .all(|hand| { hand.hand().is_two_card_twenty_one() && !hand.is_natural() })
    );
}

#[test]
fn insurance_is_limited_to_half_the_original_wager() {
    let (mut round, _) =
        deal_with_draws([Rank::Nine, Rank::Seven], [Rank::Ace, Rank::Nine], []);
    let mut bankroll = Chips::new(90);

    assert_eq!(
        round.place_insurance(Chips::new(6), &mut bankroll),
        Err(RoundError::InvalidInsurance {
            maximum: Chips::new(5),
            attempted: Chips::new(6),
        })
    );
    assert_eq!(bankroll, Chips::new(90));
    assert_eq!(round.phase(), RoundPhase::InsuranceOffer);

    round
        .place_insurance(Chips::new(5), &mut bankroll)
        .expect("valid insurance");
    assert_eq!(bankroll, Chips::new(85));
    assert_eq!(round.insurance_wager(), Chips::new(5));
    assert_eq!(round.phase(), RoundPhase::PlayerTurns);
}

#[test]
fn winning_insurance_returns_stake_plus_two_to_one_profit() {
    let (mut round, _) =
        deal_with_draws([Rank::Nine, Rank::Seven], [Rank::Ace, Rank::King], []);
    let mut bankroll = Chips::new(90);

    round
        .place_insurance(Chips::new(5), &mut bankroll)
        .expect("valid insurance");
    let settlement = round.settlement().expect("dealer natural settles");

    assert_eq!(settlement.hand_results()[0].outcome(), RoundOutcome::Loss);
    assert_eq!(settlement.main_credit(), Chips::zero());
    assert_eq!(settlement.insurance_credit(), Chips::new(15));
    assert_eq!(settlement.total_credit(), Chips::new(15));
}

#[test]
fn dealer_soft_seventeen_follows_table_configuration() {
    let (mut standing, mut standing_shoe) = deal_with_rules(
        [Rank::Ten, Rank::Eight],
        [Rank::Ace, Rank::Six],
        [Rank::Two],
        configured_rules(Soft17Rule::Stand, BlackjackPayout::ThreeToTwo),
    );
    let (mut hitting, mut hitting_shoe) = deal_with_rules(
        [Rank::Ten, Rank::Eight],
        [Rank::Ace, Rank::Six],
        [Rank::Two],
        configured_rules(Soft17Rule::Hit, BlackjackPayout::ThreeToTwo),
    );
    let mut bankroll = Chips::new(90);

    standing
        .place_insurance(Chips::zero(), &mut bankroll)
        .expect("decline insurance");
    standing
        .act(PlayerAction::Stand, &mut bankroll, &mut standing_shoe)
        .expect("stand");
    standing
        .play_dealer(&mut standing_shoe)
        .expect("dealer play");
    hitting
        .place_insurance(Chips::zero(), &mut bankroll)
        .expect("decline insurance");
    hitting
        .act(PlayerAction::Stand, &mut bankroll, &mut hitting_shoe)
        .expect("stand");
    hitting.play_dealer(&mut hitting_shoe).expect("dealer play");

    assert_eq!(standing.dealer_hand().cards().len(), 2);
    assert_eq!(hitting.dealer_hand().cards().len(), 3);
    assert_eq!(hitting.dealer_hand().value().total, 19);
}

#[test]
fn dealer_stands_on_hard_seventeen() {
    let (mut round, mut shoe) = deal_with_draws(
        [Rank::Ten, Rank::Eight],
        [Rank::Ten, Rank::Seven],
        [Rank::King],
    );
    let mut bankroll = Chips::new(90);

    round
        .act(PlayerAction::Stand, &mut bankroll, &mut shoe)
        .expect("stand");
    round.play_dealer(&mut shoe).expect("dealer play");

    assert_eq!(round.dealer_hand().cards().len(), 2);
    assert_eq!(shoe.len(), 1);
}

#[test]
fn dealer_does_not_draw_after_every_player_hand_busts() {
    let (mut round, mut shoe) = deal_with_draws(
        [Rank::King, Rank::Six],
        [Rank::Five, Rank::Six],
        [Rank::King, Rank::Ace],
    );
    let mut bankroll = Chips::new(90);

    round
        .act(PlayerAction::Hit, &mut bankroll, &mut shoe)
        .expect("busting hit");
    round
        .play_dealer(&mut shoe)
        .expect("settles without dealer draw");

    assert_eq!(shoe.len(), 1);
    assert_eq!(round.dealer_hand().cards().len(), 2);
    assert_eq!(
        round.settlement().expect("settled").hand_results()[0].outcome(),
        RoundOutcome::Bust
    );
}

#[test]
fn regular_outcomes_credit_loss_push_win_and_dealer_bust_exactly() {
    for (player, dealer, draws, outcome, credit) in [
        (
            [Rank::Ten, Rank::Seven],
            [Rank::Ten, Rank::Eight],
            vec![],
            RoundOutcome::Loss,
            Chips::zero(),
        ),
        (
            [Rank::Ten, Rank::Eight],
            [Rank::Ten, Rank::Eight],
            vec![],
            RoundOutcome::Push,
            Chips::new(10),
        ),
        (
            [Rank::Ten, Rank::Nine],
            [Rank::Ten, Rank::Eight],
            vec![],
            RoundOutcome::Win,
            Chips::new(20),
        ),
        (
            [Rank::Ten, Rank::Eight],
            [Rank::Nine, Rank::Seven],
            vec![Rank::King],
            RoundOutcome::Win,
            Chips::new(20),
        ),
    ] {
        let (mut round, mut shoe) = deal_with_draws(player, dealer, draws);
        let mut bankroll = Chips::new(90);
        round
            .act(PlayerAction::Stand, &mut bankroll, &mut shoe)
            .expect("stand");
        round.play_dealer(&mut shoe).expect("dealer play");
        let result = &round.settlement().expect("settled").hand_results()[0];
        assert_eq!(result.outcome(), outcome);
        assert_eq!(result.credit(), credit);
    }
}

#[test]
fn natural_payouts_are_exact_for_both_table_options() {
    for (payout, expected_credit) in [
        (BlackjackPayout::ThreeToTwo, Chips::new(25)),
        (BlackjackPayout::SixToFive, Chips::new(22)),
    ] {
        let (round, _) = deal_with_rules(
            [Rank::Ace, Rank::King],
            [Rank::Nine, Rank::Seven],
            [],
            configured_rules(Soft17Rule::Stand, payout),
        );
        let result = &round.settlement().expect("natural settles").hand_results()[0];
        assert_eq!(result.outcome(), RoundOutcome::Blackjack);
        assert_eq!(result.credit(), expected_credit);
    }
}

#[test]
fn post_split_twenty_one_receives_regular_win_credit() {
    let (mut round, mut shoe) = deal_with_draws(
        [Rank::King, Rank::Queen],
        [Rank::Nine, Rank::Eight],
        [Rank::Ace, Rank::Ace],
    );
    let mut bankroll = Chips::new(90);

    round
        .act(PlayerAction::Split, &mut bankroll, &mut shoe)
        .expect("split");
    round.play_dealer(&mut shoe).expect("dealer play");

    assert!(
        round
            .settlement()
            .expect("settled")
            .hand_results()
            .iter()
            .all(|result| {
                result.outcome() == RoundOutcome::Win && result.credit() == Chips::new(20)
            })
    );
}

#[test]
fn settlement_can_be_taken_only_once() {
    let (mut round, _) =
        deal_with_draws([Rank::Ace, Rank::King], [Rank::Nine, Rank::Seven], []);

    assert!(round.take_settlement().is_some());
    assert!(round.take_settlement().is_none());
}

fn staked(round: &Round) -> u64 {
    round.player_hands().iter().map(|hand| hand.wager().value()).sum::<u64>() + round.insurance_wager().value()
}

#[test]
fn split_moves_one_wager_from_bankroll_to_table() {
    let (mut round, mut shoe) = deal_with_draws(
        [Rank::Nine, Rank::Nine],
        [Rank::Nine, Rank::Seven],
        [Rank::Two, Rank::Three, Rank::King],
    );
    let mut bankroll = Chips::new(90);
    let before = bankroll.value() + staked(&round);

    round
        .act(PlayerAction::Split, &mut bankroll, &mut shoe)
        .expect("legal split");
    assert_eq!(bankroll.value() + staked(&round), before);
    round
        .act(PlayerAction::Double, &mut bankroll, &mut shoe)
        .expect("double after split");
    assert_eq!(bankroll.value() + staked(&round), before);
    assert_eq!(bankroll, Chips::new(70));
}

#[test]
fn operations_outside_their_phase_are_rejected() {
    let (mut round, mut shoe) =
        deal_with_draws([Rank::Five, Rank::Six], [Rank::Nine, Rank::Seven], [Rank::Two]);
    let mut bankroll = Chips::new(90);

    assert_eq!(
        round.play_dealer(&mut shoe),
        Err(RoundError::InvalidPhase(RoundPhase::PlayerTurns))
    );
    assert_eq!(
        round.place_insurance(Chips::new(1), &mut bankroll),
        Err(RoundError::InvalidPhase(RoundPhase::PlayerTurns))
    );
    assert_eq!(bankroll, Chips::new(90));
    assert_eq!(shoe.len(), 1);
}

#[test]
fn odd_wager_has_no_exact_insurance_limit() {
    let mut shoe = Shoe::ordered(
        [Rank::Nine, Rank::Ace, Rank::Seven, Rank::Nine]
            .into_iter()
            .map(card)
            .collect(),
    );
    let mut round = Round::deal(Chips::new(11), rules(), &mut shoe).expect("deal succeeds");
    let mut bankroll = Chips::new(89);

    assert_eq!(
        round.place_insurance(Chips::zero(), &mut bankroll),
        Err(RoundError::Money(blackjackrs::money::MoneyError::InexactRatio {
            amount: Chips::new(11),
            numerator: 1,
            denominator: 2,
        }))
    );
    assert_eq!(round.phase(), RoundPhase::InsuranceOffer);
}

#[test]
fn dealer_natural_pushes_against_player_natural() {
    let (mut round, _) = deal_with_draws([Rank::Ace, Rank::King], [Rank::Ace, Rank::Queen], []);
    let mut bankroll = Chips::new(90);

    assert_eq!(round.phase(), RoundPhase::InsuranceOffer);
    assert!(round.legal_actions(bankroll).is_empty());
    round
        .place_insurance(Chips::new(5), &mut bankroll)
        .expect("valid insurance");
    let settlement = round.settlement().expect("settled");
    assert_eq!(settlement.hand_results()[0].outcome(), RoundOutcome::Push);
    assert_eq!(settlement.hand_results()[0].credit(), Chips::new(10));
    assert_eq!(settlement.insurance_wager(), Chips::new(5));
    assert_eq!(settlement.total_credit(), Chips::new(25));
    assert_eq!(bankroll, Chips::new(85));
}

#[test]
fn short_shoe_fails_the_deal_without_drawing() {
    let mut shoe = Shoe::ordered(vec![card(Rank::Two), card(Rank::Three)]);
    assert_eq!(
        Round::deal(Chips::new(10), rules(), &mut shoe),
        Err(RoundError::Shoe(ShoeError::InsufficientCards {
            requested: 4,
            remaining: 2,
        }))
    );
    assert_eq!(shoe.len(), 2);
}

#[test]
fn dealer_bust_pays_every_live_hand() {
    let (mut round, mut shoe) = deal_with_draws(
        [Rank::Ten, Rank::Two],
        [Rank::Six, Rank::Ten],
        [Rank::Nine],
    );
    let mut bankroll = Chips::new(90);

    round
        .act(PlayerAction::Stand, &mut bankroll, &mut shoe)
        .expect("stand");
    round.play_dealer(&mut shoe).expect("dealer play");
    assert_eq!(round.dealer_hand().value().total, 25);
    let settlement = round.take_settlement().expect("settled");
    assert_eq!(settlement.hand_results()[0].outcome(), RoundOutcome::Win);
    assert_eq!(settlement.main_credit(), Chips::new(20));
    assert!(round.settlement().is_none());
}
