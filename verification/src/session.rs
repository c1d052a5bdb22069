//! The bankroll session: repeated rounds against a persistent bankroll.

use rand::rngs::StdRng;
use vstd::prelude::*;

use crate::card::Card;
use crate::money::{Chips, MoneyError};
use crate::round::{
    act_outcome, dealer_turn_outcome, dealt_round, insurance_outcome, round_wf, settlement_for, PlayerAction, Round,
    RoundError, RoundPhase, RoundSettlement, RoundView, SettlementView,
};
use crate::rules::{TableRules, WagerError};
use crate::shoe::{standard_shoe, top_cards, Shoe, ShoeError};

verus! {

broadcast use crate::money::group_chips;

/// Failures of session operations.
#[derive(Debug, Clone, Copy, PartialEq, Eq, Structural)]
pub enum SessionError {
    RoundInProgress,
    PendingSettlement,
    NoActiveRound,
    MissingSettlement,
    Wager(WagerError),
    Money(MoneyError),
    Round(RoundError),
    Shoe(ShoeError),
}

impl SessionError {
    /// The message the error is reported with.
    pub open spec fn text(self) -> Seq<char> {
        match self {
            SessionError::RoundInProgress => "a round is already in progress"@,
            SessionError::PendingSettlement => "the completed round must be acknowledged first"@,
            SessionError::NoActiveRound => "there is no active round"@,
            SessionError::MissingSettlement => "settled round has no settlement"@,
            SessionError::Wager(error) => "invalid wager: "@ + error.text(),
            SessionError::Money(error) => "money error: "@ + error.text(),
            SessionError::Round(error) => "round error: "@ + error.text(),
            SessionError::Shoe(error) => "shoe error: "@ + error.text(),
        }
    }

    /// The message the error is reported with, such as
    /// `invalid wager: wager must be greater than zero`.
    pub fn to_string(&self) -> (text: String)
        ensures
            text@ == self.text(),
    {
        match self {
            SessionError::RoundInProgress => String::from_str("a round is already in progress"),
            SessionError::PendingSettlement => String::from_str("the completed round must be acknowledged first"),
            SessionError::NoActiveRound => String::from_str("there is no active round"),
            SessionError::MissingSettlement => String::from_str("settled round has no settlement"),
            SessionError::Wager(error) => {
                let mut text = String::from_str("invalid wager: ");
                text.append(error.to_string().as_str());
                text
            },
            SessionError::Money(error) => {
                let mut text = String::from_str("money error: ");
                text.append(error.to_string().as_str());
                text
            },
            SessionError::Round(error) => {
                let mut text = String::from_str("round error: ");
                text.append(error.to_string().as_str());
                text
            },
            SessionError::Shoe(error) => {
                let mut text = String::from_str("shoe error: ");
                text.append(error.to_string().as_str());
                text
            },
        }
    }
}

impl From<WagerError> for SessionError {
    fn from(error: WagerError) -> (converted: Self) {
        SessionError::Wager(error)
    }
}

impl vstd::std_specs::convert::FromSpecImpl<WagerError> for SessionError {
    open spec fn obeys_from_spec() -> bool {
        true
    }

    open spec fn from_spec(error: WagerError) -> Self {
        SessionError::Wager(error)
    }
}

impl From<MoneyError> for SessionError {
    fn from(error: MoneyError) -> (converted: Self) {
        SessionError::Money(error)
    }
}

impl vstd::std_specs::convert::FromSpecImpl<MoneyError> for SessionError {
    open spec fn obeys_from_spec() -> bool {
        true
    }

    open spec fn from_spec(error: MoneyError) -> Self {
        SessionError::Money(error)
    }
}

impl From<RoundError> for SessionError {
    fn from(error: RoundError) -> (converted: Self) {
        SessionError::Round(error)
    }
}

impl vstd::std_specs::convert::FromSpecImpl<RoundError> for SessionError {
    open spec fn obeys_from_spec() -> bool {
        true
    }

    open spec fn from_spec(error: RoundError) -> Self {
        SessionError::Round(error)
    }
}

impl From<ShoeError> for SessionError {
    fn from(error: ShoeError) -> (converted: Self) {
        SessionError::Shoe(error)
    }
}

impl vstd::std_specs::convert::FromSpecImpl<ShoeError> for SessionError {
    open spec fn obeys_from_spec() -> bool {
        true
    }

    open spec fn from_spec(error: ShoeError) -> Self {
        SessionError::Shoe(error)
    }
}

/// A round in play with the shoe it deals from.
#[derive(Debug)]
struct ActiveRound {
    round: Round,
    shoe: Shoe,
}

/// A settled round whose settlement has not been collected yet.
#[derive(Debug)]
struct CompletedRound {
    round: Round,
    settlement: RoundSettlement,
}

/// The player's session at one table.
#[derive(Debug)]
pub struct Session {
    bankroll: Chips,
    rules: TableRules,
    rng: StdRng,
    active: Option<ActiveRound>,
    completed: Option<CompletedRound>,
}

/// The abstract state of a session: the bankroll, the table, the round in
/// play with its shoe, and the settled round awaiting collection.
pub struct SessionView {
    pub bankroll: u64,
    pub rules: TableRules,
    pub active: Option<(RoundView, Seq<Card>)>,
    pub completed: Option<(RoundView, SettlementView)>,
}

impl View for Session {
    type V = SessionView;

    closed spec fn view(&self) -> SessionView {
        SessionView {
            bankroll: self.bankroll@,
            rules: self.rules,
            active: match &self.active {
                Some(active) => Some((active.round@, active.shoe@)),
                None => None,
            },
            completed: match &self.completed {
                Some(completed) => Some((completed.round@, completed.settlement@)),
                None => None,
            },
        }
    }
}

/// The session's consistency: its rounds are consistent, a round still in
/// play that is settled holds its settlement, and the settlement awaiting
/// collection is the one the rules give for the completed round.
pub open spec fn session_wf(session: SessionView) -> bool {
    &&& session.active matches Some((round, _)) ==> round_wf(round) && (round.phase == RoundPhase::Settled
        ==> round.settlement is Some)
    &&& session.completed matches Some((round, _)) ==> round_wf(round)
    &&& session.completed matches Some((round, settlement)) ==> settlement_for(round, round.dealer) == Ok::<
        SettlementView,
        MoneyError,
    >(settlement)
}

/// Moves the session on after a change to the round in play: the dealer
/// plays once the player's turns are over, and a settled round's credit is
/// added to the bankroll as the round moves to the completed slot.
pub open spec fn advance_outcome(session: SessionView) -> (Result<(), SessionError>, SessionView) {
    match session.active {
        None => (Err(SessionError::NoActiveRound), session),
        Some((round, shoe)) => {
            let step = if round.phase == RoundPhase::DealerTurn {
                dealer_turn_outcome(round, shoe)
            } else {
                Ok((round, shoe))
            };
            match step {
                Err(e) => (Err(SessionError::Round(e)), session),
                Ok((played, rest)) => {
                    let in_play = SessionView { active: Some((played, rest)), ..session };
                    if played.phase != RoundPhase::Settled {
                        (Ok(()), in_play)
                    } else {
                        match played.settlement {
                            None => (Err(SessionError::MissingSettlement), in_play),
                            Some(settlement) => {
                                if session.bankroll + settlement.total_credit > u64::MAX {
                                    (Err(SessionError::Money(MoneyError::Overflow)), in_play)
                                } else {
                                    (
                                        Ok(()),
                                        SessionView {
                                            bankroll: (session.bankroll + settlement.total_credit) as u64,
                                            active: None,
                                            completed: Some((RoundView { settlement: None, ..played }, settlement)),
                                            ..session
                                        },
                                    )
                                }
                            },
                        }
                    }
                },
            }
        },
    }
}

/// The check before a round starts: no round may be in play or awaiting
/// collection, and the wager must pass the table's rules; the result is the
/// bankroll left once the wager is reserved.
pub open spec fn start_check(session: SessionView, wager: Chips) -> Result<u64, SessionError> {
    if session.active is Some {
        Err(SessionError::RoundInProgress)
    } else if session.completed is Some {
        Err(SessionError::PendingSettlement)
    } else {
        match session.rules.wager_verdict(wager, Chips::spec_new(session.bankroll)) {
            Err(e) => Err(SessionError::Wager(e)),
            Ok(()) => Ok((session.bankroll - wager@) as u64),
        }
    }
}

/// Deals a round for `wager` from `shoe` after the check passed: the wager
/// is reserved, and the round is moved on at once (it may settle on the
/// deal).
pub open spec fn deal_outcome(session: SessionView, wager: Chips, remaining: u64, shoe: Seq<Card>) -> (
    Result<(), SessionError>,
    SessionView,
) {
    if shoe.len() < 4 {
        (
            Err(
                SessionError::Round(
                    RoundError::Shoe(ShoeError::InsufficientCards { requested: 4, remaining: shoe.len() as usize }),
                ),
            ),
            session,
        )
    } else {
        match dealt_round(wager@, session.rules, top_cards(shoe, 4)) {
            Err(e) => (Err(SessionError::Round(e)), session),
            Ok(round) => advance_outcome(
                SessionView {
                    bankroll: remaining,
                    active: Some((round, shoe.subrange(0, shoe.len() - 4))),
                    ..session
                },
            ),
        }
    }
}

/// Starting a round for `wager` with `shoe` as the freshly shuffled shoe.
pub open spec fn start_outcome(session: SessionView, wager: Chips, shoe: Seq<Card>) -> (
    Result<(), SessionError>,
    SessionView,
) {
    match start_check(session, wager) {
        Err(e) => (Err(e), session),
        Ok(remaining) => deal_outcome(session, wager, remaining, shoe),
    }
}

/// Offering insurance in the round in play, then moving the session on.
/// A refused offer leaves the session as the round left it.
pub open spec fn session_insurance_outcome(session: SessionView, amount: Chips) -> (
    Result<(), SessionError>,
    SessionView,
) {
    match session.active {
        None => (Err(SessionError::NoActiveRound), session),
        Some((round, shoe)) => {
            let (result, insured, funds) = insurance_outcome(round, amount, Chips::spec_new(session.bankroll));
            let after = SessionView { bankroll: funds, active: Some((insured, shoe)), ..session };
            match result {
                Err(e) => (Err(SessionError::Round(e)), after),
                Ok(()) => advance_outcome(after),
            }
        },
    }
}

/// Taking an action in the round in play, then moving the session on.
pub open spec fn session_act_outcome(session: SessionView, action: PlayerAction) -> (
    Result<(), SessionError>,
    SessionView,
) {
    match session.active {
        None => (Err(SessionError::NoActiveRound), session),
        Some((round, shoe)) => match act_outcome(round, action, session.bankroll, shoe) {
            Err(e) => (Err(SessionError::Round(e)), session),
            Ok((played, funds, rest)) => advance_outcome(
                SessionView { bankroll: funds, active: Some((played, rest)), ..session },
            ),
        },
    }
}

impl Session {
    /// The session is consistent.
    pub open spec fn wf(&self) -> bool {
        session_wf(self@)
    }

    /// A session with the given bankroll and table, dealing shoes shuffled by
    /// `rng`.
    pub fn new(bankroll: Chips, rules: TableRules, rng: StdRng) -> (session: Session)
        ensures
            session@ == (SessionView { bankroll: bankroll@, rules, active: None, completed: None }),
            session.wf(),
    {
        Session { bankroll, rules, rng, active: None, completed: None }
    }

    pub fn bankroll(&self) -> (bankroll: Chips)
        ensures
            bankroll@ == self@.bankroll,
    {
        self.bankroll
    }

    pub fn rules(&self) -> (rules: TableRules)
        ensures
            rules == self@.rules,
    {
        self.rules
    }

    /// The round in play, or else the settled round awaiting collection.
    pub fn round(&self) -> (round: Option<&Round>)
        ensures
            match round {
                Some(r) => match self@.active {
                    Some((active, _)) => r@ == active,
                    None => self@.completed matches Some((completed, _)) && r@ == completed,
                },
                None => self@.active is None && self@.completed is None,
            },
    {
        match &self.active {
            Some(active) => Some(&active.round),
            None => match &self.completed {
                Some(completed) => Some(&completed.round),
                None => None,
            },
        }
    }

    /// Whether the bankroll covers the smallest wager the table accepts.
    pub fn can_place_minimum_wager(&self) -> (possible: bool)
        ensures
            possible == (self@.rules.blackjack_payout().increment() <= self@.bankroll),
    {
        match self.rules.validate_wager(self.rules.wager_increment(), self.bankroll) {
            Ok(()) => true,
            Err(_) => false,
        }
    }

    /// Checks that a round may start with `wager` and returns the bankroll
    /// left once it is reserved.
    pub fn validate_round_start(&self, wager: Chips) -> (result: Result<Chips, SessionError>)
        ensures
            match start_check(self@, wager) {
                Ok(remaining) => result matches Ok(r) && r@ == remaining,
                Err(e) => result == Err::<Chips, SessionError>(e),
            },
    {
        if self.active.is_some() {
            return Err(SessionError::RoundInProgress);
        }
        if self.completed.is_some() {
            return Err(SessionError::PendingSettlement);
        }
        assert(self.bankroll == Chips::spec_new(self@.bankroll)) by {
            Chips::lemma_view_eq(self.bankroll, Chips::spec_new(self@.bankroll));
        }
        match self.rules.validate_wager(wager, self.bankroll) {
            Ok(()) => {},
            Err(error) => return Err(SessionError::Wager(error)),
        }
        match self.bankroll.checked_sub(wager) {
            Ok(remaining) => Ok(remaining),
            Err(error) => Err(SessionError::Money(error)),
        }
    }

    /// Starts a round for `wager` with a freshly shuffled shoe. Whatever the
    /// shuffle yields, the shoe is a permutation of the table's decks and the
    /// session moves as `start_outcome` says for that shoe.
    pub fn start_round(&mut self, wager: Chips) -> (result: Result<(), SessionError>)
        requires
            old(self).wf(),
        ensures
            final(self).wf(),
            exists|shoe: Seq<Card>|
                {
                    &&& shoe.len() == old(self)@.rules.deck_count() as nat * 52
                    &&& shoe.to_multiset() == standard_shoe(old(self)@.rules.deck_count() as nat).to_multiset()
                    &&& (result, final(self)@) == #[trigger] start_outcome(old(self)@, wager, shoe)
                },
    {
        let deck_count = self.rules.deck_count();
        let remaining = match self.validate_round_start(wager) {
            Ok(remaining) => remaining,
            Err(error) => {
                proof {
                    let witness = standard_shoe(deck_count as nat);
                    assert(witness.len() == old(self)@.rules.deck_count() as nat * 52);
                    assert((Err::<(), SessionError>(error), self@) == start_outcome(old(self)@, wager, witness));
                }
                return Err(error);
            },
        };
        let shoe = match Shoe::shuffled(deck_count, &mut self.rng) {
            Ok(shoe) => shoe,
            Err(error) => return Err(SessionError::Shoe(error)),
        };
        let ghost cards = shoe@;
        let result = self.start_prevalidated_round(wager, remaining, shoe);
        assert((result, self@) == start_outcome(old(self)@, wager, cards));
        result
    }

    /// Deals a round for `wager` from `shoe`, with `remaining` the bankroll
    /// left once the wager is reserved, and moves the round on.
    pub fn start_prevalidated_round(&mut self, wager: Chips, remaining: Chips, shoe: Shoe) -> (result: Result<(), SessionError>)
        requires
            old(self).wf(),
            start_check(old(self)@, wager) == Ok::<u64, SessionError>(remaining@),
        ensures
            final(self).wf(),
            (result, final(self)@) == deal_outcome(old(self)@, wager, remaining@, shoe@),
    {
        let mut shoe = shoe;
        let round = match Round::deal(wager, self.rules, &mut shoe) {
            Ok(round) => round,
            Err(error) => return Err(SessionError::Round(error)),
        };
        self.bankroll = remaining;
        self.active = Some(ActiveRound { round, shoe });
        self.advance_round()
    }

    /// Offers an insurance wager in the round in play.
    pub fn place_insurance(&mut self, amount: Chips) -> (result: Result<(), SessionError>)
        requires
            old(self).wf(),
        ensures
            final(self).wf(),
            (result, final(self)@) == session_insurance_outcome(old(self)@, amount),
    {
        let active = match self.active.as_mut() {
            Some(active) => active,
            None => return Err(SessionError::NoActiveRound),
        };
        match active.round.place_insurance(amount, &mut self.bankroll) {
            Ok(()) => {},
            Err(error) => return Err(SessionError::Round(error)),
        }
        self.advance_round()
    }

    /// Takes a player action in the round in play.
    pub fn act(&mut self, action: PlayerAction) -> (result: Result<(), SessionError>)
        requires
            old(self).wf(),
        ensures
            final(self).wf(),
            (result, final(self)@) == session_act_outcome(old(self)@, action),
    {
        let active = match self.active.as_mut() {
            Some(active) => active,
            None => return Err(SessionError::NoActiveRound),
        };
        match active.round.act(action, &mut self.bankroll, &mut active.shoe) {
            Ok(()) => {
                assert(active.round@.phase != RoundPhase::Settled);
            },
            Err(error) => return Err(SessionError::Round(error)),
        }
        self.advance_round()
    }

    /// Collects the settlement of the completed round, once.
    pub fn finish_round(&mut self) -> (result: Result<Option<RoundSettlement>, SessionError>)
        ensures
            match result {
                Ok(Some(settlement)) => old(self)@.completed matches Some((_, s)) && settlement@ == s,
                Ok(None) => old(self)@.completed is None,
                Err(_) => false,
            },
            final(self)@ == (SessionView { completed: None, ..old(self)@ }),
            old(self).wf() ==> final(self).wf(),
    {
        match self.completed.take() {
            Some(completed) => Ok(Some(completed.settlement)),
            None => Ok(None),
        }
    }

    /// Plays the dealer once the player's turns are over and credits a
    /// settled round.
    fn advance_round(&mut self) -> (result: Result<(), SessionError>)
        requires
            old(self).wf(),
        ensures
            (result, final(self)@) == advance_outcome(old(self)@),
            final(self).wf(),
    {
        let active = match self.active.as_mut() {
            Some(active) => active,
            None => return Err(SessionError::NoActiveRound),
        };
        if active.round.phase() == RoundPhase::DealerTurn {
            match active.round.play_dealer(&mut active.shoe) {
                Ok(()) => {},
                Err(error) => return Err(SessionError::Round(error)),
            }
        }
        if active.round.phase() != RoundPhase::Settled {
            return Ok(());
        }
        let credit = match active.round.settlement() {
            Some(settlement) => settlement.total_credit(),
            None => return Err(SessionError::MissingSettlement),
        };
        let updated_bankroll = match self.bankroll.checked_add(credit) {
            Ok(updated) => updated,
            Err(error) => return Err(SessionError::Money(error)),
        };
        let mut active = match self.active.take() {
            Some(active) => active,
            None => return Err(SessionError::NoActiveRound),
        };
        let settlement = match active.round.take_settlement() {
            Some(settlement) => settlement,
            None => return Err(SessionError::MissingSettlement),
        };
        self.bankroll = updated_bankroll;
        self.completed = Some(CompletedRound { round: active.round, settlement });
        Ok(())
    }
}

} // verus!
