use blackjackrs::money::Chips;
use blackjackrs::rules::{BlackjackPayout, RuleError, Soft17Rule, TableRules, WagerError};

#[test]
fn deck_count_must_be_between_one_and_eight() {
    assert_eq!(
        TableRules::new(0, Soft17Rule::Stand, BlackjackPayout::ThreeToTwo),
        Err(RuleError::InvalidDeckCount(0))
    );
    assert_eq!(
        TableRules::new(9, Soft17Rule::Stand, BlackjackPayout::ThreeToTwo),
        Err(RuleError::InvalidDeckCount(9))
    );
    assert!(TableRules::new(1, Soft17Rule::Stand, BlackjackPayout::ThreeToTwo).is_ok());
    assert!(TableRules::new(8, Soft17Rule::Hit, BlackjackPayout::SixToFive).is_ok());
}

#[test]
fn three_to_two_requires_even_wagers() {
    let rules = TableRules::new(6, Soft17Rule::Stand, BlackjackPayout::ThreeToTwo)
        .expect("valid test rules");

    assert_eq!(
        rules.validate_wager(Chips::new(20), Chips::new(100)),
        Ok(())
    );
    assert_eq!(
        rules.validate_wager(Chips::new(11), Chips::new(100)),
        Err(WagerError::InvalidIncrement {
            required: Chips::new(2),
        })
    );
}

#[test]
fn six_to_five_requires_ten_chip_wager_increments() {
    let rules = TableRules::new(6, Soft17Rule::Stand, BlackjackPayout::SixToFive)
        .expect("valid test rules");

    assert_eq!(
        rules.validate_wager(Chips::new(20), Chips::new(100)),
        Ok(())
    );
    assert_eq!(
        rules.validate_wager(Chips::new(12), Chips::new(100)),
        Err(WagerError::InvalidIncrement {
            required: Chips::new(10),
        })
    );
}

#[test]
fn wager_must_be_positive_and_affordable() {
    let rules = TableRules::new(6, Soft17Rule::Stand, BlackjackPayout::ThreeToTwo)
        .expect("valid test rules");

    assert_eq!(
        rules.validate_wager(Chips::zero(), Chips::new(100)),
        Err(WagerError::ZeroWager)
    );
    assert_eq!(
        rules.validate_wager(Chips::new(102), Chips::new(100)),
        Err(WagerError::InsufficientFunds {
            available: Chips::new(100),
            required: Chips::new(102),
        })
    );
}

#[test]
fn validated_rules_expose_table_configuration() {
    let rules = TableRules::new(4, Soft17Rule::Hit, BlackjackPayout::SixToFive)
        .expect("valid test rules");

    assert_eq!(rules.deck_count(), 4);
    assert_eq!(rules.soft_17(), Soft17Rule::Hit);
    assert_eq!(rules.blackjack_payout(), BlackjackPayout::SixToFive);
    assert_eq!(rules.blackjack_profit_ratio(), (6, 5));
    assert_eq!(rules.wager_increment(), Chips::new(10));
    assert_eq!(rules.maximum_hands(), 4);
}

#[test]
fn accepted_wagers_have_exact_payouts() {
    for (payout, wager) in [(BlackjackPayout::ThreeToTwo, 14), (BlackjackPayout::SixToFive, 30)] {
        let rules = TableRules::new(2, Soft17Rule::Stand, payout).expect("valid test rules");
        assert_eq!(rules.validate_wager(Chips::new(wager), Chips::new(1000)), Ok(()));
        let (numerator, denominator) = rules.blackjack_profit_ratio();
        assert!(Chips::new(wager).checked_mul_ratio(numerator, denominator).is_ok());
        assert!(Chips::new(wager).checked_mul_ratio(1, 2).is_ok());
    }
    assert_eq!(BlackjackPayout::ThreeToTwo.profit_ratio(), (3, 2));
    assert_eq!(BlackjackPayout::SixToFive.wager_increment(), Chips::new(10));
}
