use blackjackrs::card::{Card, Rank, Suit};
use blackjackrs::cli::{
    bankroll_banner, bet_prompt, game_over_message, render_actions, render_round, render_settlement,
    next_round_screen, take_action_input, take_bet, take_insurance_input, BetStep, RoundScreen, RoundStep,
};
use blackjackrs::money::Chips;
use blackjackrs::round::{PlayerAction, Round, RoundPhase};
use blackjackrs::rules::{BlackjackPayout, Soft17Rule, TableRules};
use blackjackrs::session::{Session, SessionError};
use blackjackrs::shoe::Shoe;
use rand::rngs::StdRng;
use rand::SeedableRng;

fn card(rank: Rank) -> Card {
    Card::new(rank, Suit::Spades)
}

fn rules() -> TableRules {
    TableRules::new(1, Soft17Rule::Stand, BlackjackPayout::ThreeToTwo).expect("valid test rules")
}

fn ordered_shoe(player: [Rank; 2], dealer: [Rank; 2], draws: Vec<Rank>) -> Shoe {
    let mut cards = vec![card(player[0]), card(dealer[0]), card(player[1]), card(dealer[1])];
    cards.extend(draws.into_iter().map(card));
    Shoe::ordered(cards)
}

fn session_with_round(player: [Rank; 2], dealer: [Rank; 2], draws: Vec<Rank>) -> Session {
    let mut session = Session::new(Chips::new(100), rules(), StdRng::from_seed([5_u8; 32]));
    let wager = Chips::new(10);
    let remaining = session.validate_round_start(wager).expect("wager accepted");
    session
        .start_prevalidated_round(wager, remaining, ordered_shoe(player, dealer, draws))
        .expect("round starts");
    session
}

#[test]
fn round_view_hides_the_hole_card_and_marks_the_active_hand() {
    let mut shoe = ordered_shoe([Rank::Five, Rank::Six], [Rank::Nine, Rank::Seven], vec![]);
    let round = Round::deal(Chips::new(10), rules(), &mut shoe).expect("deal succeeds");
    assert_eq!(
        render_round(&round, Chips::new(90)),
        "Dealer: 9♠ [hidden]\nAvailable bankroll: 90 chips\nHand 1 *: 5♠ 6♠ (11) - active - wager 10 chips\n"
    );
}

#[test]
fn round_view_names_a_soft_total() {
    let mut shoe = ordered_shoe([Rank::Ace, Rank::Six], [Rank::Nine, Rank::Seven], vec![]);
    let round = Round::deal(Chips::new(10), rules(), &mut shoe).expect("deal succeeds");
    assert_eq!(
        render_round(&round, Chips::new(90)),
        "Dealer: 9♠ [hidden]\nAvailable bankroll: 90 chips\nHand 1 *: A♠ 6♠ (17 soft) - active - wager 10 chips\n"
    );
}

#[test]
fn settled_round_view_reveals_the_dealer_and_settlement_lists_credits() {
    let mut shoe = ordered_shoe([Rank::Ten, Rank::Nine], [Rank::Ten, Rank::Seven], vec![]);
    let mut round = Round::deal(Chips::new(10), rules(), &mut shoe).expect("deal succeeds");
    let mut bankroll = Chips::new(90);
    round.act(PlayerAction::Stand, &mut bankroll, &mut shoe).expect("stand");
    round.play_dealer(&mut shoe).expect("dealer plays");
    assert_eq!(round.phase(), RoundPhase::Settled);
    assert_eq!(
        render_round(&round, bankroll),
        "Dealer: 10♠ 7♠ (total 17)\nAvailable bankroll: 90 chips\nHand 1: 10♠ 9♠ (19) - standing - wager 10 chips\n"
    );
    let settlement = round.take_settlement().expect("settlement");
    assert_eq!(
        render_settlement(&settlement, Chips::new(110)),
        "Round result:\n  Hand 1: win (credit 20 chips)\n  Total credit: 20 chips\nBankroll after round: 110 chips\n"
    );
}

#[test]
fn settlement_lists_insurance_when_it_was_taken() {
    let mut shoe = ordered_shoe([Rank::Ten, Rank::Nine], [Rank::Ace, Rank::King], vec![]);
    let mut round = Round::deal(Chips::new(10), rules(), &mut shoe).expect("deal succeeds");
    assert_eq!(round.phase(), RoundPhase::InsuranceOffer);
    let mut bankroll = Chips::new(90);
    round.place_insurance(Chips::new(5), &mut bankroll).expect("insurance taken");
    assert_eq!(round.phase(), RoundPhase::Settled);
    let settlement = round.take_settlement().expect("settlement");
    assert_eq!(
        render_settlement(&settlement, Chips::new(100)),
        "Round result:\n  Hand 1: loss (credit 0 chips)\n  Insurance: wager 5 chips, credit 15 chips\n  Total credit: 15 chips\nBankroll after round: 100 chips\n"
    );
}

#[test]
fn action_line_lists_each_open_action() {
    assert_eq!(
        render_actions(&[PlayerAction::Hit, PlayerAction::Stand, PlayerAction::Double]),
        "Actions: hit stand double\n"
    );
    assert_eq!(render_actions(&[]), "Actions:\n");
}

#[test]
fn betting_texts_name_bankroll_and_increment() {
    assert_eq!(bankroll_banner(Chips::new(100)), "\nBankroll: 100 chips\n");
    assert_eq!(
        game_over_message(Chips::new(10)),
        "Game over: bankroll cannot cover the 10 chips minimum wager.\n"
    );
    assert_eq!(bet_prompt(Chips::new(2)), "Bet (multiple of 2 chips, or quit): ");
}

#[test]
fn betting_prompt_quits_refuses_and_starts_rounds() {
    let mut session = Session::new(Chips::new(100), rules(), StdRng::from_seed([9_u8; 32]));
    assert!(matches!(take_bet(&mut session, "QUIT"), BetStep::Quit));
    assert!(matches!(take_bet(&mut session, "q"), BetStep::Quit));
    assert!(matches!(take_bet(&mut session, "ten"), BetStep::Retry(m) if m == "Enter a whole number of chips."));
    assert!(matches!(
        take_bet(&mut session, "5"),
        BetStep::Retry(m) if m == "invalid wager: wager must be a multiple of 2 chips"
    ));
    assert!(matches!(
        take_bet(&mut session, "200"),
        BetStep::Retry(m) if m == "invalid wager: insufficient funds: 100 chips available, 200 chips required"
    ));
    assert!(matches!(
        take_bet(&mut session, "0"),
        BetStep::Retry(m) if m == "invalid wager: wager must be greater than zero"
    ));
    assert_eq!(session.bankroll(), Chips::new(100));
    assert!(session.round().is_none());
    assert!(matches!(take_bet(&mut session, "10"), BetStep::Play));
    assert!(session.round().is_some());
}

#[test]
fn betting_during_a_round_is_fatal() {
    let mut session = session_with_round([Rank::Five, Rank::Six], [Rank::Nine, Rank::Seven], vec![]);
    assert!(matches!(
        take_bet(&mut session, "10"),
        BetStep::Fatal(SessionError::RoundInProgress)
    ));
}

#[test]
fn action_prompt_takes_actions_and_refuses_other_lines() {
    let mut session = session_with_round([Rank::Five, Rank::Six], [Rank::Nine, Rank::Seven], vec![Rank::Two]);
    assert!(matches!(
        take_action_input(&mut session, "dance"),
        RoundStep::Retry(m) if m == "Unknown action. Enter one of the listed actions."
    ));
    assert!(matches!(
        take_action_input(&mut session, "q"),
        RoundStep::Retry(m) if m == "Quit is only available between rounds."
    ));
    assert!(matches!(
        take_action_input(&mut session, "p"),
        RoundStep::Retry(m) if m == "round error: action Split is not legal"
    ));
    assert_eq!(session.bankroll(), Chips::new(90));
    assert!(matches!(take_action_input(&mut session, "HIT"), RoundStep::Continue));
    let round = session.round().expect("round in play");
    assert_eq!(round.player_hands()[0].hand().cards().len(), 3);
    assert_eq!(round.phase(), RoundPhase::PlayerTurns);
}

#[test]
fn action_without_a_round_is_fatal() {
    let mut session = Session::new(Chips::new(100), rules(), StdRng::from_seed([3_u8; 32]));
    assert!(matches!(
        take_action_input(&mut session, "hit"),
        RoundStep::Fatal(SessionError::NoActiveRound)
    ));
}

#[test]
fn insurance_prompt_takes_amounts_within_half_the_wager() {
    let mut session = session_with_round([Rank::Ten, Rank::Nine], [Rank::Ace, Rank::Seven], vec![]);
    assert_eq!(session.round().expect("round").phase(), RoundPhase::InsuranceOffer);
    assert!(matches!(
        take_insurance_input(&mut session, "lots"),
        RoundStep::Retry(m) if m == "Enter a whole number of chips."
    ));
    assert!(matches!(
        take_insurance_input(&mut session, "6"),
        RoundStep::Retry(m) if m == "round error: insurance wager 6 chips exceeds the maximum of 5 chips"
    ));
    assert_eq!(session.bankroll(), Chips::new(90));
    assert!(matches!(take_insurance_input(&mut session, "4"), RoundStep::Continue));
    assert_eq!(session.bankroll(), Chips::new(86));
    assert_eq!(session.round().expect("round").phase(), RoundPhase::PlayerTurns);
}

#[test]
fn round_screens_follow_the_phase() {
    let mut empty = Session::new(Chips::new(100), rules(), StdRng::from_seed([4_u8; 32]));
    assert!(matches!(next_round_screen(&mut empty), RoundScreen::MissingRound));

    let mut insured = session_with_round([Rank::Ten, Rank::Nine], [Rank::Ace, Rank::Seven], vec![]);
    assert!(matches!(
        next_round_screen(&mut insured),
        RoundScreen::AskInsurance(text)
            if text == "Dealer: A♠ [hidden]\nAvailable bankroll: 90 chips\nHand 1 *: 10♠ 9♠ (19) - active - wager 10 chips\n"
    ));

    let mut session = session_with_round([Rank::Ten, Rank::Nine], [Rank::Ten, Rank::Seven], vec![]);
    assert!(matches!(
        next_round_screen(&mut session),
        RoundScreen::AskAction(text)
            if text == "Dealer: 10♠ [hidden]\nAvailable bankroll: 90 chips\nHand 1 *: 10♠ 9♠ (19) - active - wager 10 chips\nActions: hit stand double\n"
    ));
    assert!(matches!(take_action_input(&mut session, "stand"), RoundStep::Continue));
    assert_eq!(session.bankroll(), Chips::new(110));
    assert!(matches!(
        next_round_screen(&mut session),
        RoundScreen::Finished(text)
            if text == "Dealer: 10♠ 7♠ (total 17)\nAvailable bankroll: 110 chips\nHand 1: 10♠ 9♠ (19) - standing - wager 10 chips\nRound result:\n  Hand 1: win (credit 20 chips)\n  Total credit: 20 chips\nBankroll after round: 110 chips\n"
    ));
    assert!(session.round().is_none());
    assert!(matches!(next_round_screen(&mut session), RoundScreen::MissingRound));
}

#[test]
fn settlement_totals_add_up() {
    let mut shoe = ordered_shoe([Rank::Ten, Rank::Ace], [Rank::Nine, Rank::Seven], vec![]);
    let mut round = Round::deal(Chips::new(10), rules(), &mut shoe).expect("deal succeeds");
    let settlement = round.take_settlement().expect("a natural settles at once");
    let results = settlement.hand_results();
    assert_eq!(results.len(), 1);
    assert_eq!(results[0].credit(), Chips::new(25));
    assert_eq!(settlement.main_credit(), Chips::new(25));
    assert_eq!(settlement.insurance_credit(), Chips::new(0));
    assert_eq!(settlement.total_credit(), Chips::new(25));
}
