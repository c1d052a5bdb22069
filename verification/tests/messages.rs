use blackjackrs::money::{Chips, MoneyError};
use blackjackrs::round::{PlayerAction, RoundError, RoundPhase};
use blackjackrs::rules::{RuleError, WagerError};
use blackjackrs::session::SessionError;
use blackjackrs::shoe::ShoeError;

#[test]
fn money_errors_describe_the_failure() {
    assert_eq!(MoneyError::Overflow.to_string(), "chip arithmetic overflow");
    assert_eq!(
        MoneyError::InsufficientFunds { available: Chips::new(5), required: Chips::new(20) }.to_string(),
        "insufficient funds: 5 chips available, 20 chips required"
    );
    assert_eq!(
        MoneyError::InexactRatio { amount: Chips::new(7), numerator: 3, denominator: 2 }.to_string(),
        "7 chips cannot be multiplied exactly by 3:2"
    );
    assert_eq!(MoneyError::ZeroDenominator.to_string(), "payout denominator cannot be zero");
}

#[test]
fn rule_and_wager_errors_describe_the_failure() {
    assert_eq!(RuleError::InvalidDeckCount(9).to_string(), "deck count must be between 1 and 8, got 9");
    assert_eq!(WagerError::ZeroWager.to_string(), "wager must be greater than zero");
    assert_eq!(
        WagerError::InsufficientFunds { available: Chips::new(0), required: Chips::new(10) }.to_string(),
        "insufficient funds: 0 chips available, 10 chips required"
    );
    assert_eq!(
        WagerError::InvalidIncrement { required: Chips::new(10) }.to_string(),
        "wager must be a multiple of 10 chips"
    );
}

#[test]
fn shoe_errors_describe_the_failure() {
    assert_eq!(ShoeError::InvalidDeckCount(0).to_string(), "deck count must be between 1 and 8, got 0");
    assert_eq!(ShoeError::Exhausted.to_string(), "the shoe is exhausted");
    assert_eq!(
        ShoeError::InsufficientCards { requested: 4, remaining: 3 }.to_string(),
        "cannot draw 4 cards from a shoe with 3 remaining"
    );
}

#[test]
fn round_errors_name_the_phase_or_action() {
    assert_eq!(RoundError::InvalidDeal.to_string(), "the initial deal was incomplete");
    assert_eq!(
        RoundError::InvalidPhase(RoundPhase::InsuranceOffer).to_string(),
        "operation is invalid during InsuranceOffer"
    );
    assert_eq!(
        RoundError::InvalidPhase(RoundPhase::DealerTurn).to_string(),
        "operation is invalid during DealerTurn"
    );
    assert_eq!(RoundError::IllegalAction(PlayerAction::Double).to_string(), "action Double is not legal");
    assert_eq!(RoundError::IllegalAction(PlayerAction::Split).to_string(), "action Split is not legal");
    assert_eq!(
        RoundError::InvalidInsurance { maximum: Chips::new(5), attempted: Chips::new(6) }.to_string(),
        "insurance wager 6 chips exceeds the maximum of 5 chips"
    );
    assert_eq!(RoundError::Shoe(ShoeError::Exhausted).to_string(), "shoe error: the shoe is exhausted");
    assert_eq!(RoundError::Money(MoneyError::Overflow).to_string(), "money error: chip arithmetic overflow");
}

#[test]
fn session_errors_wrap_the_underlying_message() {
    assert_eq!(SessionError::RoundInProgress.to_string(), "a round is already in progress");
    assert_eq!(
        SessionError::PendingSettlement.to_string(),
        "the completed round must be acknowledged first"
    );
    assert_eq!(SessionError::NoActiveRound.to_string(), "there is no active round");
    assert_eq!(SessionError::MissingSettlement.to_string(), "settled round has no settlement");
    assert_eq!(
        SessionError::Wager(WagerError::ZeroWager).to_string(),
        "invalid wager: wager must be greater than zero"
    );
    assert_eq!(
        SessionError::Money(MoneyError::Overflow).to_string(),
        "money error: chip arithmetic overflow"
    );
    assert_eq!(
        SessionError::Round(RoundError::IllegalAction(PlayerAction::Hit)).to_string(),
        "round error: action Hit is not legal"
    );
    assert_eq!(
        SessionError::Shoe(ShoeError::InsufficientCards { requested: 2, remaining: 1 }).to_string(),
        "shoe error: cannot draw 2 cards from a shoe with 1 remaining"
    );
}

#[test]
fn errors_convert_into_their_wrappers() {
    assert_eq!(RoundError::from(ShoeError::Exhausted), RoundError::Shoe(ShoeError::Exhausted));
    assert_eq!(RoundError::from(MoneyError::Overflow), RoundError::Money(MoneyError::Overflow));
    assert_eq!(SessionError::from(WagerError::ZeroWager), SessionError::Wager(WagerError::ZeroWager));
    assert_eq!(SessionError::from(MoneyError::Overflow), SessionError::Money(MoneyError::Overflow));
    assert_eq!(
        SessionError::from(RoundError::InvalidDeal),
        SessionError::Round(RoundError::InvalidDeal)
    );
    assert_eq!(SessionError::from(ShoeError::Exhausted), SessionError::Shoe(ShoeError::Exhausted));
}
