use blackjackrs::card::{Card, Rank, Suit};
use blackjackrs::money::Chips;
use blackjackrs::round::{PlayerAction, RoundOutcome, RoundPhase};
use blackjackrs::rules::{BlackjackPayout, Soft17Rule, TableRules, WagerError};
use blackjackrs::session::{Session, SessionError};
use blackjackrs::shoe::Shoe;
use rand::rngs::StdRng;
use rand::SeedableRng;

fn card(rank: Rank) -> Card {
    Card::new(rank, Suit::Spades)
}

fn rules(payout: BlackjackPayout) -> TableRules {
    TableRules::new(1, Soft17Rule::Stand, payout).expect("valid test rules")
}

fn session(bankroll: u64) -> Session {
    Session::new(
        Chips::new(bankroll),
        rules(BlackjackPayout::ThreeToTwo),
        StdRng::from_seed([11_u8; 32]),
    )
}

fn shoe(player: [Rank; 2], dealer: [Rank; 2], draws: impl IntoIterator<Item = Rank>) -> Shoe {
    Shoe::ordered(
        [player[0], dealer[0], player[1], dealer[1]]
            .into_iter()
            .chain(draws)
            .map(card)
            .collect(),
    )
}

fn start_with_shoe(
    session: &mut Session,
    wager: Chips,
    shoe: Shoe,
) -> Result<(), SessionError> {
    let remaining = session.validate_round_start(wager)?;
    session.start_prevalidated_round(wager, remaining, shoe)
}

#[test]
fn starting_round_reserves_valid_wager() {
    let mut session = session(100);

    start_with_shoe(
        &mut session,
        Chips::new(10),
        shoe([Rank::Five, Rank::Six], [Rank::Nine, Rank::Seven], []),
    )
    .expect("round starts");

    assert_eq!(session.bankroll(), Chips::new(90));
    assert_eq!(
        session.round().expect("active round").phase(),
        RoundPhase::PlayerTurns
    );
}

#[test]
fn invalid_wager_does_not_change_session() {
    let mut session = session(100);

    assert_eq!(
        start_with_shoe(
            &mut session,
            Chips::new(11),
            shoe([Rank::Five, Rank::Six], [Rank::Nine, Rank::Seven], []),
        ),
        Err(SessionError::Wager(WagerError::InvalidIncrement {
            required: Chips::new(2),
        }))
    );
    assert_eq!(session.bankroll(), Chips::new(100));
    assert!(session.round().is_none());
}

#[test]
fn session_rejects_overlapping_rounds() {
    let mut session = session(100);
    start_with_shoe(
        &mut session,
        Chips::new(10),
        shoe([Rank::Five, Rank::Six], [Rank::Nine, Rank::Seven], []),
    )
    .expect("round starts");

    assert_eq!(
        session.start_round(Chips::new(10)),
        Err(SessionError::RoundInProgress)
    );
}

#[test]
fn completed_round_is_credited_exactly_once() {
    let mut session = session(100);
    start_with_shoe(
        &mut session,
        Chips::new(10),
        shoe([Rank::Ace, Rank::King], [Rank::Nine, Rank::Seven], []),
    )
    .expect("natural settles");

    assert_eq!(session.bankroll(), Chips::new(115));
    let settlement = session
        .finish_round()
        .expect("finish succeeds")
        .expect("settled");
    assert_eq!(
        settlement.hand_results()[0].outcome(),
        RoundOutcome::Blackjack
    );
    assert!(session.finish_round().expect("idempotent finish").is_none());
    assert_eq!(session.bankroll(), Chips::new(115));
}

#[test]
fn action_completion_plays_dealer_and_credits_bankroll() {
    let mut session = session(100);
    start_with_shoe(
        &mut session,
        Chips::new(10),
        shoe([Rank::Ten, Rank::Nine], [Rank::Ten, Rank::Eight], []),
    )
    .expect("round starts");

    session.act(PlayerAction::Stand).expect("stand settles");

    assert_eq!(session.bankroll(), Chips::new(110));
    assert_eq!(
        session
            .finish_round()
            .expect("finish succeeds")
            .expect("settled")
            .hand_results()[0]
            .outcome(),
        RoundOutcome::Win
    );
}

#[test]
fn insurance_completion_is_delegated_and_credited() {
    let mut session = session(100);
    start_with_shoe(
        &mut session,
        Chips::new(10),
        shoe([Rank::Nine, Rank::Seven], [Rank::Ace, Rank::King], []),
    )
    .expect("insurance offer starts");

    session
        .place_insurance(Chips::new(5))
        .expect("insurance settles");

    assert_eq!(session.bankroll(), Chips::new(100));
    let settlement = session
        .finish_round()
        .expect("finish succeeds")
        .expect("settled");
    assert_eq!(settlement.insurance_credit(), Chips::new(15));
}

#[test]
fn pending_settlement_must_be_consumed_before_next_round() {
    let mut session = session(100);
    start_with_shoe(
        &mut session,
        Chips::new(10),
        shoe([Rank::Ace, Rank::King], [Rank::Nine, Rank::Seven], []),
    )
    .expect("natural settles");

    assert_eq!(
        session.start_round(Chips::new(10)),
        Err(SessionError::PendingSettlement)
    );
    assert!(session.round().is_some());
}

#[test]
fn minimum_wager_reflects_table_payout_increment() {
    let three_to_two = session(2);
    let six_to_five = Session::new(
        Chips::new(9),
        rules(BlackjackPayout::SixToFive),
        StdRng::from_seed([12_u8; 32]),
    );

    assert!(three_to_two.can_place_minimum_wager());
    assert!(!six_to_five.can_place_minimum_wager());
}

#[test]
fn operations_without_a_round_are_refused() {
    let mut session = session(100);

    assert_eq!(session.place_insurance(Chips::new(1)), Err(SessionError::NoActiveRound));
    assert_eq!(session.act(PlayerAction::Hit), Err(SessionError::NoActiveRound));
    assert!(session.finish_round().expect("finish succeeds").is_none());
    assert_eq!(session.bankroll(), Chips::new(100));
}

#[test]
fn shuffled_round_reserves_or_settles_the_wager() {
    let mut session = session(100);

    session.start_round(Chips::new(10)).expect("round starts");
    let round = session.round().expect("round exists");
    if round.phase() == RoundPhase::Settled {
        let credit = session
            .finish_round()
            .expect("finish succeeds")
            .expect("settled")
            .total_credit();
        assert_eq!(session.bankroll().value(), 90 + credit.value());
    } else {
        assert_eq!(session.bankroll(), Chips::new(90));
        assert_eq!(round.player_hands()[0].wager(), Chips::new(10));
    }
}

#[test]
fn settled_round_credit_matches_bankroll_change() {
    let mut session = session(100);
    start_with_shoe(
        &mut session,
        Chips::new(10),
        shoe([Rank::Ten, Rank::Six], [Rank::Ten, Rank::Seven], [Rank::Nine]),
    )
    .expect("round starts");

    session.act(PlayerAction::Hit).expect("busting hit");
    assert_eq!(session.bankroll(), Chips::new(90));
    let settlement = session
        .finish_round()
        .expect("finish succeeds")
        .expect("settled");
    assert_eq!(settlement.hand_results()[0].outcome(), RoundOutcome::Bust);
    assert_eq!(settlement.total_credit(), Chips::zero());
    assert_eq!(session.rules().deck_count(), 1);
}
