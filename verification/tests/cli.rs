use blackjackrs::card::{Card, Rank, Suit};
use blackjackrs::cli::{
    action_label, cards_label, hand_status_label, outcome_label, parse_action, parse_bankroll, parse_bet,
    parse_chips, parse_deck_count, parse_payout, parse_soft_17, recoverable_round_input, BetInput, InputAction,
};
use blackjackrs::money::{Chips, MoneyError};
use blackjackrs::round::{HandStatus, PlayerAction, RoundError, RoundOutcome, RoundPhase};
use blackjackrs::rules::{BlackjackPayout, Soft17Rule};
use blackjackrs::session::SessionError;

#[test]
fn action_parser_accepts_short_and_full_commands() {
    assert_eq!(parse_action("h"), Ok(InputAction::Play(PlayerAction::Hit)));
    assert_eq!(
        parse_action("hit"),
        Ok(InputAction::Play(PlayerAction::Hit))
    );
    assert_eq!(
        parse_action("s"),
        Ok(InputAction::Play(PlayerAction::Stand))
    );
    assert_eq!(
        parse_action("double"),
        Ok(InputAction::Play(PlayerAction::Double))
    );
    assert_eq!(
        parse_action("p"),
        Ok(InputAction::Play(PlayerAction::Split))
    );
    assert_eq!(parse_action("quit"), Ok(InputAction::Quit));
    assert!(parse_action("dance").is_err());
}

#[test]
fn configuration_parsers_apply_documented_defaults() {
    assert_eq!(parse_deck_count(""), Ok(6));
    assert_eq!(parse_deck_count("8"), Ok(8));
    assert!(parse_deck_count("9").is_err());
    assert_eq!(parse_soft_17(""), Ok(Soft17Rule::Stand));
    assert_eq!(parse_soft_17("hit"), Ok(Soft17Rule::Hit));
    assert_eq!(parse_payout(""), Ok(BlackjackPayout::ThreeToTwo));
    assert_eq!(parse_payout("6:5"), Ok(BlackjackPayout::SixToFive));
}

#[test]
fn parsers_ignore_case_and_report_messages() {
    assert_eq!(parse_action("HIT"), Ok(InputAction::Play(PlayerAction::Hit)));
    assert_eq!(parse_action("Split"), Ok(InputAction::Play(PlayerAction::Split)));
    assert_eq!(parse_action("Q"), Ok(InputAction::Quit));
    assert_eq!(parse_action("d"), Ok(InputAction::Play(PlayerAction::Double)));
    assert_eq!(
        parse_action("hitt"),
        Err("Unknown action. Enter one of the listed actions.")
    );
    assert_eq!(parse_soft_17("STAND"), Ok(Soft17Rule::Stand));
    assert_eq!(parse_soft_17("H"), Ok(Soft17Rule::Hit));
    assert_eq!(parse_soft_17("soft"), Err("Enter stand or hit."));
    assert_eq!(parse_payout("  3:2 "), Ok(BlackjackPayout::ThreeToTwo));
    assert_eq!(parse_payout("\t6:5\n"), Ok(BlackjackPayout::SixToFive));
    assert_eq!(parse_payout("1:1"), Err("Enter 3:2 or 6:5."));
    assert_eq!(parse_deck_count("0"), Err("Deck count must be between 1 and 8."));
    assert_eq!(parse_deck_count("1"), Ok(1));
    assert_eq!(parse_deck_count("256"), Err("Deck count must be between 1 and 8."));
}

#[test]
fn chip_parsers_follow_unsigned_decimal_syntax() {
    assert_eq!(parse_chips("125"), Ok(Chips::new(125)));
    assert_eq!(parse_chips("+7"), Ok(Chips::new(7)));
    assert_eq!(parse_chips("007"), Ok(Chips::new(7)));
    assert_eq!(parse_chips("18446744073709551615"), Ok(Chips::new(u64::MAX)));
    assert_eq!(parse_chips("18446744073709551616"), Err("Enter a whole number of chips."));
    assert_eq!(parse_chips("-3"), Err("Enter a whole number of chips."));
    assert_eq!(parse_chips("+"), Err("Enter a whole number of chips."));
    assert_eq!(parse_chips(""), Err("Enter a whole number of chips."));
    assert_eq!(parse_chips("1 2"), Err("Enter a whole number of chips."));
    assert_eq!(parse_bankroll("0"), Err("Starting bankroll must be greater than zero."));
    assert_eq!(parse_bankroll("100"), Ok(Chips::new(100)));
    assert_eq!(parse_bankroll("x"), Err("Enter a whole number of chips."));
    assert_eq!(parse_bet("QUIT"), Ok(BetInput::Quit));
    assert_eq!(parse_bet("q"), Ok(BetInput::Quit));
    assert_eq!(parse_bet("Q"), Ok(BetInput::Quit));
    assert_eq!(parse_bet("qu"), Err("Enter a whole number of chips."));
    assert_eq!(parse_bet("10"), Ok(BetInput::Wager(Chips::new(10))));
    assert_eq!(parse_bet("ten"), Err("Enter a whole number of chips."));
}

#[test]
fn recoverable_errors_are_only_rejected_inputs() {
    assert!(recoverable_round_input(SessionError::Round(RoundError::IllegalAction(
        PlayerAction::Split
    ))));
    assert!(recoverable_round_input(SessionError::Round(RoundError::InvalidInsurance {
        maximum: Chips::new(5),
        attempted: Chips::new(6),
    })));
    assert!(recoverable_round_input(SessionError::Round(RoundError::Money(
        MoneyError::InsufficientFunds {
            available: Chips::new(1),
            required: Chips::new(2),
        }
    ))));
    assert!(!recoverable_round_input(SessionError::Round(RoundError::Money(
        MoneyError::Overflow
    ))));
    assert!(!recoverable_round_input(SessionError::Round(RoundError::InvalidPhase(
        RoundPhase::Settled
    ))));
    assert!(!recoverable_round_input(SessionError::NoActiveRound));
}

#[test]
fn labels_name_actions_statuses_and_outcomes() {
    assert_eq!(action_label(PlayerAction::Double), "double");
    assert_eq!(hand_status_label(HandStatus::Busted), "busted");
    assert_eq!(outcome_label(RoundOutcome::Blackjack), "blackjack");
    assert_eq!(outcome_label(RoundOutcome::Push), "push");
    let cards = [Card::new(Rank::Ace, Suit::Spades), Card::new(Rank::Ten, Suit::Hearts)];
    assert_eq!(cards_label(&cards), "A♠ 10♥");
    assert_eq!(cards_label(&[]), "");
}
