//! The console: input parsing, what is shown to the player, and what
//! each typed line does to the session.

use vstd::prelude::*;

use crate::card::Card;
use crate::hand::value_of;
use crate::money::{chips_text, decimal_text, push_decimal, Chips, MoneyError};
use crate::round::{
    legal_actions_for, HandResult, HandSettlement, HandStatus, PlayerAction, PlayerHand, PlayerHandView, Round, RoundError, RoundOutcome, RoundPhase,
    RoundSettlement, RoundView, SettlementView,
};
use crate::rules::{BlackjackPayout, Soft17Rule};
use crate::session::{
    session_act_outcome, session_insurance_outcome, start_outcome, Session, SessionError, SessionView,
};
use crate::properties::{refused_actions_change_nothing, refused_insurance_changes_nothing};
use crate::shoe::standard_shoe;

verus! {

broadcast use crate::money::group_chips;

/// A command typed during the player's turns.
#[derive(Debug, Clone, Copy, PartialEq, Eq, Structural)]
pub enum InputAction {
    Play(PlayerAction),
    Quit,
}

/// A line typed at the betting prompt.
#[derive(Debug, Clone, Copy, PartialEq, Eq, Structural)]
pub enum BetInput {
    Wager(Chips),
    Quit,
}

// ---------------------------------------------------------------------------
// Text helpers
// ---------------------------------------------------------------------------

/// Whether a character is a decimal digit.
pub open spec fn is_digit(c: char) -> bool {
    48 <= c as u32 <= 57
}

/// The value of a decimal digit character.
pub open spec fn digit_value(c: char) -> nat {
    (c as u32 - 48) as nat
}

/// The value of a string of decimal digits, most significant first.
pub open spec fn digits_value(digits: Seq<char>) -> nat
    decreases digits.len(),
{
    if digits.len() == 0 {
        0
    } else {
        digits_value(digits.drop_last()) * 10 + digit_value(digits.last())
    }
}

/// The unsigned number a text denotes: an optional `+` followed by one or
/// more decimal digits and nothing else, whose value fits in a `u64`.
pub open spec fn u64_of_text(text: Seq<char>) -> Option<u64> {
    let digits = if text.len() > 0 && text[0] == '+' {
        text.drop_first()
    } else {
        text
    };
    if digits.len() > 0 && all_digits(digits) && digits_value(digits) <= u64::MAX {
        Some(digits_value(digits) as u64)
    } else {
        None
    }
}

/// Whether every character of `digits` is a decimal digit.
pub open spec fn all_digits(digits: Seq<char>) -> bool {
    forall|i: int| 0 <= i < digits.len() ==> is_digit(#[trigger] digits[i])
}

proof fn lemma_digits_prefix(digits: Seq<char>, k: int)
    requires
        0 <= k < digits.len(),
    ensures
        digits.subrange(0, k + 1).drop_last() == digits.subrange(0, k),
        digits.subrange(0, k + 1).last() == digits[k],
{
    assert(digits.subrange(0, k + 1).drop_last() =~= digits.subrange(0, k));
}

/// Digits never lower the value of a longer prefix.
proof fn lemma_digits_value_monotone(digits: Seq<char>, k: int)
    requires
        0 <= k <= digits.len(),
    ensures
        digits_value(digits.subrange(0, k)) <= digits_value(digits),
    decreases digits.len() - k,
{
    if k < digits.len() {
        lemma_digits_value_monotone(digits, k + 1);
        lemma_digits_prefix(digits, k);
        assert(digits_value(digits.subrange(0, k + 1)) == digits_value(digits.subrange(0, k)) * 10 + digit_value(
            digits[k],
        ));
    } else {
        assert(digits.subrange(0, k) =~= digits);
    }
}

/// Parses an unsigned decimal number as `str::parse::<u64>` accepts it.
fn parse_u64(text: &str) -> (value: Option<u64>)
    ensures
        value == u64_of_text(text@),
{
    let length = text.unicode_len();
    let mut start: usize = 0;
    if length > 0 && text.get_char(0) == '+' {
        start = 1;
    }
    let ghost digits = if text@.len() > 0 && text@[0] == '+' {
        text@.drop_first()
    } else {
        text@
    };
    assert(u64_of_text(text@) == if digits.len() > 0 && all_digits(digits) && digits_value(digits) <= u64::MAX {
        Some(digits_value(digits) as u64)
    } else {
        None
    });
    assert(digits =~= text@.subrange(start as int, length as int));
    if start == length {
        return None;
    }
    let mut total: u64 = 0;
    let mut index: usize = start;
    while index < length
        invariant
            length == text@.len(),
            start <= index <= length,
            digits == text@.subrange(start as int, length as int),
            digits.len() > 0,
            u64_of_text(text@) == if all_digits(digits) && digits_value(digits) <= u64::MAX {
                Some(digits_value(digits) as u64)
            } else {
                None
            },
            all_digits(digits.subrange(0, index - start)),
            total == digits_value(digits.subrange(0, index - start)),
        decreases length - index,
    {
        let c = text.get_char(index);
        let ghost k = index - start;
        assert(digits[k] == c);
        let code = c as u32;
        if code < 48 || code > 57 {
            assert(!all_digits(digits));
            return None;
        }
        let digit = (code - 48) as u64;
        proof {
            lemma_digits_prefix(digits, k);
            assert(digits_value(digits.subrange(0, k + 1)) == total * 10 + digit);
            lemma_digits_value_monotone(digits, k + 1);
            assert(all_digits(digits.subrange(0, k + 1)));
        }
        total = match total.checked_mul(10) {
            Some(product) => match product.checked_add(digit) {
                Some(sum) => sum,
                None => return None,
            },
            None => {
                proof {
                    assert(total * 10 + digit > u64::MAX) by (nonlinear_arith)
                        requires
                            total * 10 > u64::MAX,
                    ;
                }
                return None;
            },
        };
        index = index + 1;
    }
    assert(digits.subrange(0, index - start) =~= digits);
    Some(total)
}

/// The ASCII lowercase code of a character; other characters keep theirs.
pub open spec fn lower_code(c: char) -> u32 {
    if 65 <= c as u32 <= 90 {
        (c as u32 + 32) as u32
    } else {
        c as u32
    }
}

/// Whether a character is an ASCII letter.
pub open spec fn is_ascii_letter(c: char) -> bool {
    (65 <= c as u32 <= 90) || (97 <= c as u32 <= 122)
}

/// A text matches at most one lowercase word.
proof fn lemma_match_unique(text: Seq<char>)
    ensures
        forall|a: Seq<char>, b: Seq<char>|
            #![trigger matches_word(text, a), matches_word(text, b)]
            matches_word(text, a) && matches_word(text, b) ==> a == b,
{
    assert forall|a: Seq<char>, b: Seq<char>|
        #![trigger matches_word(text, a), matches_word(text, b)]
        matches_word(text, a) && matches_word(text, b) implies a == b by {
        assert forall|i: int| 0 <= i < a.len() implies a[i] == b[i] by {
            assert(lower_code(text[i]) == a[i] as u32);
            assert(lower_code(text[i]) == b[i] as u32);
            vstd::utf8::char_u32_cast(a[i], a[i] as u32);
            vstd::utf8::char_u32_cast(b[i], b[i] as u32);
        }
        assert(a =~= b);
    }
}

/// Whether `text` spells `word` when ASCII letters are compared without
/// case; `word` is written in lowercase.
pub open spec fn matches_word(text: Seq<char>, word: Seq<char>) -> bool {
    text.len() == word.len() && forall|i: int| 0 <= i < text.len() ==> lower_code(#[trigger] text[i]) == word[i] as u32
}

/// Compares `text` with the lowercase `word` ignoring ASCII case.
fn is_word(text: &str, word: &str) -> (same: bool)
    ensures
        same == matches_word(text@, word@),
{
    let length = text.unicode_len();
    if length != word.unicode_len() {
        return false;
    }
    let mut index: usize = 0;
    while index < length
        invariant
            length == text@.len(),
            length == word@.len(),
            index <= length,
            forall|i: int| 0 <= i < index ==> lower_code(#[trigger] text@[i]) == word@[i] as u32,
        decreases length - index,
    {
        let c = text.get_char(index);
        let w = word.get_char(index);
        let raw = c as u32;
        let code: u32 = if 65 <= raw && raw <= 90 {
            raw + 32
        } else {
            raw
        };
        if code != w as u32 {
            return false;
        }
        index = index + 1;
    }
    true
}

/// Whether a character has the Unicode `White_Space` property.
pub open spec fn is_space(c: char) -> bool {
    ||| '\u{9}' <= c <= '\u{d}'
    ||| c == ' '
    ||| c == '\u{85}'
    ||| c == '\u{a0}'
    ||| c == '\u{1680}'
    ||| '\u{2000}' <= c <= '\u{200a}'
    ||| c == '\u{2028}'
    ||| c == '\u{2029}'
    ||| c == '\u{202f}'
    ||| c == '\u{205f}'
    ||| c == '\u{3000}'
}

fn is_space_char(c: char) -> (space: bool)
    ensures
        space == is_space(c),
{
    ('\u{9}' <= c && c <= '\u{d}') || c == ' ' || c == '\u{85}' || c == '\u{a0}' || c == '\u{1680}' || ('\u{2000}'
        <= c && c <= '\u{200a}') || c == '\u{2028}' || c == '\u{2029}' || c == '\u{202f}' || c == '\u{205f}' || c
        == '\u{3000}'
}

/// `text` without leading and trailing whitespace: the result is a
/// contiguous part of `text` that neither starts nor ends with whitespace,
/// and everything cut off is whitespace.
pub open spec fn is_trim_of(trimmed: Seq<char>, text: Seq<char>) -> bool {
    exists|from: int, to: int|
        #![trigger text.subrange(from, to)]
        0 <= from <= to <= text.len() && trimmed == text.subrange(from, to) && (forall|i: int|
            0 <= i < from ==> is_space(#[trigger] text[i])) && (forall|i: int|
            to <= i < text.len() ==> is_space(#[trigger] text[i])) && (from < to ==> !is_space(text[from])
            && !is_space(text[to - 1]))
}

/// Removes leading and trailing whitespace.
fn trim_text(text: &str) -> (trimmed: &str)
    ensures
        is_trim_of(trimmed@, text@),
{
    let length = text.unicode_len();
    let mut from: usize = 0;
    while from < length && is_space_char(text.get_char(from))
        invariant
            length == text@.len(),
            from <= length,
            forall|i: int| 0 <= i < from ==> is_space(#[trigger] text@[i]),
        decreases length - from,
    {
        from = from + 1;
    }
    let mut to: usize = length;
    while to > from && is_space_char(text.get_char(to - 1))
        invariant
            length == text@.len(),
            from <= to <= length,
            forall|i: int| to <= i < length ==> is_space(#[trigger] text@[i]),
        decreases to,
    {
        to = to - 1;
    }
    let trimmed = text.substring_char(from, to);
    assert(is_trim_of(trimmed@, text@)) by {
        assert(trimmed@ == text@.subrange(from as int, to as int));
    }
    trimmed
}

// ---------------------------------------------------------------------------
// Parsers
// ---------------------------------------------------------------------------

/// A whole number of chips; anything else is refused with a message.
pub fn parse_chips(input: &str) -> (result: Result<Chips, &'static str>)
    ensures
        match u64_of_text(input@) {
            Some(value) => result matches Ok(chips) && chips@ == value,
            None => result matches Err(message) && message@ == "Enter a whole number of chips."@,
        },
{
    match parse_u64(input) {
        Some(value) => Ok(Chips::new(value)),
        None => Err("Enter a whole number of chips."),
    }
}

/// A starting bankroll: a positive whole number of chips.
pub fn parse_bankroll(input: &str) -> (result: Result<Chips, &'static str>)
    ensures
        match u64_of_text(input@) {
            Some(value) => if value == 0 {
                result matches Err(message) && message@ == "Starting bankroll must be greater than zero."@
            } else {
                result matches Ok(chips) && chips@ == value
            },
            None => result matches Err(message) && message@ == "Enter a whole number of chips."@,
        },
{
    let bankroll = match parse_chips(input) {
        Ok(bankroll) => bankroll,
        Err(message) => return Err(message),
    };
    if bankroll.value() == 0 {
        return Err("Starting bankroll must be greater than zero.");
    }
    Ok(bankroll)
}

/// A deck count from one to eight; an empty line means six.
pub fn parse_deck_count(input: &str) -> (result: Result<u8, &'static str>)
    ensures
        input@.len() == 0 ==> result == Ok::<u8, &'static str>(6),
        input@.len() > 0 ==> match u64_of_text(input@) {
            Some(value) if 1 <= value <= 8 => result == Ok::<u8, &'static str>(value as u8),
            _ => result matches Err(message) && message@ == "Deck count must be between 1 and 8."@,
        },
{
    if input.unicode_len() == 0 {
        return Ok(6);
    }
    match parse_u64(input) {
        Some(count) => {
            if 1 <= count && count <= 8 {
                Ok(count as u8)
            } else {
                Err("Deck count must be between 1 and 8.")
            }
        },
        None => Err("Deck count must be between 1 and 8."),
    }
}

/// The dealer's soft-17 rule: empty, `s` or `stand` means stand; `h` or
/// `hit` means hit; case does not matter.
pub fn parse_soft_17(input: &str) -> (result: Result<Soft17Rule, &'static str>)
    ensures
        (input@.len() == 0 || matches_word(input@, "s"@) || matches_word(input@, "stand"@)) ==> result
            == Ok::<Soft17Rule, &'static str>(Soft17Rule::Stand),
        (matches_word(input@, "h"@) || matches_word(input@, "hit"@)) ==> result == Ok::<Soft17Rule, &'static str>(
            Soft17Rule::Hit,
        ),
        !(input@.len() == 0 || matches_word(input@, "s"@) || matches_word(input@, "stand"@) || matches_word(
            input@,
            "h"@,
        ) || matches_word(input@, "hit"@)) ==> (result matches Err(message) && message@ == "Enter stand or hit."@),
{
    proof {
        reveal_strlit("s");
        reveal_strlit("h");
        reveal_strlit("stand");
        reveal_strlit("hit");
        lemma_match_unique(input@);
        assert("s"@ != "h"@ && "s"@ != "hit"@ && "stand"@ != "h"@ && "stand"@ != "hit"@) by {
            assert("s"@[0] != "h"@[0]);
            assert("stand"@.len() != "h"@.len());
            assert("stand"@.len() != "hit"@.len());
            assert("s"@.len() != "hit"@.len());
        }
    }
    if input.unicode_len() == 0 || is_word(input, "s") || is_word(input, "stand") {
        Ok(Soft17Rule::Stand)
    } else if is_word(input, "h") || is_word(input, "hit") {
        Ok(Soft17Rule::Hit)
    } else {
        Err("Enter stand or hit.")
    }
}

/// The natural payout: `3:2` or an empty line for three to two, `6:5` for
/// six to five; surrounding whitespace is ignored.
pub fn parse_payout(input: &str) -> (result: Result<BlackjackPayout, &'static str>)
    ensures
        forall|trimmed: Seq<char>|
            #![trigger is_trim_of(trimmed, input@)]
            is_trim_of(trimmed, input@) ==> {
                &&& (trimmed.len() == 0 || trimmed == "3:2"@) ==> result == Ok::<BlackjackPayout, &'static str>(
                    BlackjackPayout::ThreeToTwo,
                )
                &&& trimmed == "6:5"@ ==> result == Ok::<BlackjackPayout, &'static str>(BlackjackPayout::SixToFive)
                &&& !(trimmed.len() == 0 || trimmed == "3:2"@ || trimmed == "6:5"@) ==> (result matches Err(message)
                    && message@ == "Enter 3:2 or 6:5."@)
            },
{
    let trimmed = trim_text(input);
    proof {
        lemma_trim_unique(trimmed@, input@);
        reveal_strlit("3:2");
        reveal_strlit("6:5");
        assert("3:2"@[0] != "6:5"@[0]);
        assert("3:2"@ != "6:5"@);
        assert("3:2"@.len() == 3 && "6:5"@.len() == 3);
    }
    if trimmed.unicode_len() == 0 || is_word(trimmed, "3:2") {
        proof {
            lemma_word_is_exact(trimmed@, "3:2"@);
        }
        Ok(BlackjackPayout::ThreeToTwo)
    } else if is_word(trimmed, "6:5") {
        proof {
            lemma_word_is_exact(trimmed@, "6:5"@);
        }
        Ok(BlackjackPayout::SixToFive)
    } else {
        proof {
            lemma_word_is_exact(trimmed@, "3:2"@);
            lemma_word_is_exact(trimmed@, "6:5"@);
        }
        Err("Enter 3:2 or 6:5.")
    }
}

/// For a word without letters, matching without case is plain equality.
proof fn lemma_word_is_exact(text: Seq<char>, word: Seq<char>)
    requires
        forall|i: int| 0 <= i < word.len() ==> !is_ascii_letter(#[trigger] word[i]),
    ensures
        matches_word(text, word) <==> text == word,
{
    if matches_word(text, word) {
        assert forall|i: int| 0 <= i < text.len() implies text[i] == word[i] by {
            assert(lower_code(text[i]) == word[i] as u32);
            assert(!is_ascii_letter(word[i]));
            vstd::utf8::char_u32_cast(text[i], text[i] as u32);
            vstd::utf8::char_u32_cast(word[i], word[i] as u32);
        }
        assert(text =~= word);
    }
    if text == word {
        assert forall|i: int| 0 <= i < text.len() implies lower_code(#[trigger] text[i]) == word[i] as u32 by {
        }
    }
}

/// A text has only one trimmed form.
proof fn lemma_trim_unique(a: Seq<char>, text: Seq<char>)
    requires
        is_trim_of(a, text),
    ensures
        forall|b: Seq<char>| #[trigger] is_trim_of(b, text) ==> b == a,
{
    assert forall|b: Seq<char>| #[trigger] is_trim_of(b, text) implies b == a by {
        let (f1, t1) = choose|from: int, to: int|
            #![trigger text.subrange(from, to)]
            0 <= from <= to <= text.len() && a == text.subrange(from, to) && (forall|i: int|
                0 <= i < from ==> is_space(#[trigger] text[i])) && (forall|i: int|
                to <= i < text.len() ==> is_space(#[trigger] text[i])) && (from < to ==> !is_space(text[from])
                && !is_space(text[to - 1]));
        let (f2, t2) = choose|from: int, to: int|
            #![trigger text.subrange(from, to)]
            0 <= from <= to <= text.len() && b == text.subrange(from, to) && (forall|i: int|
                0 <= i < from ==> is_space(#[trigger] text[i])) && (forall|i: int|
                to <= i < text.len() ==> is_space(#[trigger] text[i])) && (from < to ==> !is_space(text[from])
                && !is_space(text[to - 1]));
        if f1 < t1 && f2 < t2 {
            if f1 < f2 {
                assert(is_space(text[f1]));
            }
            if f2 < f1 {
                assert(is_space(text[f2]));
            }
            if t1 < t2 {
                assert(is_space(text[t2 - 1]));
            }
            if t2 < t1 {
                assert(is_space(text[t1 - 1]));
            }
        } else if f1 < t1 {
            assert(is_space(text[f1]));
        } else if f2 < t2 {
            assert(is_space(text[f2]));
        }
        assert(a =~= b);
    }
}

/// The command a line names: `h`/`hit`, `s`/`stand`, `d`/`double`,
/// `p`/`split` or `q`/`quit`, in any case.
pub open spec fn input_action_of(text: Seq<char>) -> Option<InputAction> {
    if matches_word(text, "h"@) || matches_word(text, "hit"@) {
        Some(InputAction::Play(PlayerAction::Hit))
    } else if matches_word(text, "s"@) || matches_word(text, "stand"@) {
        Some(InputAction::Play(PlayerAction::Stand))
    } else if matches_word(text, "d"@) || matches_word(text, "double"@) {
        Some(InputAction::Play(PlayerAction::Double))
    } else if matches_word(text, "p"@) || matches_word(text, "split"@) {
        Some(InputAction::Play(PlayerAction::Split))
    } else if matches_word(text, "q"@) || matches_word(text, "quit"@) {
        Some(InputAction::Quit)
    } else {
        None
    }
}

/// A console command, as `input_action_of` reads it; anything else is
/// refused with a message.
pub fn parse_action(input: &str) -> (result: Result<InputAction, &'static str>)
    ensures
        match input_action_of(input@) {
            Some(action) => result == Ok::<InputAction, &'static str>(action),
            None => result matches Err(message) && message@ == "Unknown action. Enter one of the listed actions."@,
        },
{
    if is_word(input, "h") || is_word(input, "hit") {
        Ok(InputAction::Play(PlayerAction::Hit))
    } else if is_word(input, "s") || is_word(input, "stand") {
        Ok(InputAction::Play(PlayerAction::Stand))
    } else if is_word(input, "d") || is_word(input, "double") {
        Ok(InputAction::Play(PlayerAction::Double))
    } else if is_word(input, "p") || is_word(input, "split") {
        Ok(InputAction::Play(PlayerAction::Split))
    } else if is_word(input, "q") || is_word(input, "quit") {
        Ok(InputAction::Quit)
    } else {
        Err("Unknown action. Enter one of the listed actions.")
    }
}

/// Whether a line is the quit command, `q` or `quit`, in any case.
pub open spec fn is_quit_word(text: Seq<char>) -> bool {
    matches_word(text, "q"@) || matches_word(text, "quit"@)
}

/// A line at the betting prompt: `q` or `quit` in any case ends the session,
/// anything else must be a whole number of chips.
pub fn parse_bet(input: &str) -> (result: Result<BetInput, &'static str>)
    ensures
        is_quit_word(input@) ==> result == Ok::<BetInput, &'static str>(BetInput::Quit),
        !is_quit_word(input@) ==> match u64_of_text(input@) {
            Some(value) => result matches Ok(BetInput::Wager(chips)) && chips@ == value,
            None => result matches Err(message) && message@ == "Enter a whole number of chips."@,
        },
{
    if is_word(input, "q") || is_word(input, "quit") {
        return Ok(BetInput::Quit);
    }
    match parse_chips(input) {
        Ok(wager) => Ok(BetInput::Wager(wager)),
        Err(message) => Err(message),
    }
}

/// Whether a session error is a rejected input the player may correct: an
/// illegal action, an insurance wager out of range, or an unaffordable stake.
pub open spec fn is_recoverable(error: SessionError) -> bool {
    match error {
        SessionError::Round(RoundError::IllegalAction(_)) => true,
        SessionError::Round(RoundError::InvalidInsurance { .. }) => true,
        SessionError::Round(RoundError::Money(MoneyError::InsufficientFunds { .. })) => true,
        _ => false,
    }
}

/// Whether the error only rejects the player's input.
pub fn recoverable_round_input(error: SessionError) -> (recoverable: bool)
    ensures
        recoverable == is_recoverable(error),
{
    match error {
        SessionError::Round(RoundError::IllegalAction(_)) => true,
        SessionError::Round(RoundError::InvalidInsurance { .. }) => true,
        SessionError::Round(RoundError::Money(MoneyError::InsufficientFunds { .. })) => true,
        _ => false,
    }
}

// ---------------------------------------------------------------------------
// Labels
// ---------------------------------------------------------------------------

/// The command word of an action.
pub open spec fn action_word(action: PlayerAction) -> Seq<char> {
    match action {
        PlayerAction::Hit => "hit"@,
        PlayerAction::Stand => "stand"@,
        PlayerAction::Double => "double"@,
        PlayerAction::Split => "split"@,
    }
}

/// The word for a hand status.
pub open spec fn status_word(status: HandStatus) -> Seq<char> {
    match status {
        HandStatus::Active => "active"@,
        HandStatus::Standing => "standing"@,
        HandStatus::Busted => "busted"@,
    }
}

/// The word for a hand outcome.
pub open spec fn outcome_word(outcome: RoundOutcome) -> Seq<char> {
    match outcome {
        RoundOutcome::Bust => "bust"@,
        RoundOutcome::Loss => "loss"@,
        RoundOutcome::Push => "push"@,
        RoundOutcome::Win => "win"@,
        RoundOutcome::Blackjack => "blackjack"@,
    }
}

/// The command word of an action.
pub fn action_label(action: PlayerAction) -> (label: &'static str)
    ensures
        label@ == action_word(action),
{
    match action {
        PlayerAction::Hit => "hit",
        PlayerAction::Stand => "stand",
        PlayerAction::Double => "double",
        PlayerAction::Split => "split",
    }
}

/// The word for a hand status.
pub fn hand_status_label(status: HandStatus) -> (label: &'static str)
    ensures
        label@ == status_word(status),
{
    match status {
        HandStatus::Active => "active",
        HandStatus::Standing => "standing",
        HandStatus::Busted => "busted",
    }
}

/// The word for a hand outcome.
pub fn outcome_label(outcome: RoundOutcome) -> (label: &'static str)
    ensures
        label@ == outcome_word(outcome),
{
    match outcome {
        RoundOutcome::Bust => "bust",
        RoundOutcome::Loss => "loss",
        RoundOutcome::Push => "push",
        RoundOutcome::Win => "win",
        RoundOutcome::Blackjack => "blackjack",
    }
}

/// The printed cards, separated by single spaces.
pub open spec fn cards_text(cards: Seq<Card>) -> Seq<char>
    decreases cards.len(),
{
    if cards.len() == 0 {
        Seq::empty()
    } else if cards.len() == 1 {
        cards[0].text()
    } else {
        cards_text(cards.drop_last()) + seq![' '] + cards.last().text()
    }
}

/// The cards of a hand as printed, separated by single spaces.
pub fn cards_label(cards: &[Card]) -> (label: String)
    ensures
        label@ == cards_text(cards@),
{
    let mut label = String::new();
    let mut index: usize = 0;
    while index < cards.len()
        invariant
            index <= cards@.len(),
            label@ == cards_text(cards@.subrange(0, index as int)),
        decreases cards@.len() - index,
    {
        let ghost prefix = cards@.subrange(0, index + 1);
        assert(prefix.drop_last() =~= cards@.subrange(0, index as int));
        if index > 0 {
            proof {
                reveal_strlit(" ");
            }
            label.append(" ");
        }
        let text = cards[index].to_string();
        label.append(text.as_str());
        index = index + 1;
    }
    assert(cards@.subrange(0, index as int) =~= cards@);
    label
}

// ---------------------------------------------------------------------------
// What the console shows
// ---------------------------------------------------------------------------

/// Whether the dealer's hole card is shown: from the dealer's turn on.
pub open spec fn reveals_dealer(phase: RoundPhase) -> bool {
    phase == RoundPhase::DealerTurn || phase == RoundPhase::Settled
}

/// The dealer's line: every card and the total once the hole card is shown,
/// otherwise the upcard and a hidden marker.
pub open spec fn dealer_line(round: RoundView) -> Seq<char> {
    if reveals_dealer(round.phase) {
        "Dealer: "@ + cards_text(round.dealer) + " (total "@ + decimal_text(value_of(round.dealer).total as nat)
            + ")\n"@
    } else {
        "Dealer: "@ + round.dealer[0].text() + " [hidden]\n"@
    }
}

/// The line of player hand `index`, counted from one when shown; the hand
/// in play is marked with a star, and a soft total says so.
pub open spec fn hand_line(hand: PlayerHandView, index: int, marked: bool) -> Seq<char> {
    let value = value_of(hand.cards);
    "Hand "@ + decimal_text((index + 1) as nat) + (if marked {
        " *"@
    } else {
        Seq::empty()
    }) + ": "@ + cards_text(hand.cards) + " ("@ + decimal_text(value.total as nat) + (if value.is_soft {
        " soft"@
    } else {
        Seq::empty()
    }) + ") - "@ + status_word(hand.status) + " - wager "@ + chips_text(hand.wager) + "\n"@
}

/// The lines of the first `count` player hands.
pub open spec fn hand_lines(round: RoundView, count: int) -> Seq<char>
    decreases count,
{
    if count <= 0 {
        Seq::empty()
    } else {
        hand_lines(round, count - 1) + hand_line(
            round.hands[count - 1],
            count - 1,
            round.active == Some((count - 1) as usize),
        )
    }
}

/// The round as shown to the player: the dealer, the bankroll available,
/// then every player hand.
pub open spec fn round_text(round: RoundView, bankroll: u64) -> Seq<char> {
    dealer_line(round) + "Available bankroll: "@ + chips_text(bankroll) + "\n"@ + hand_lines(
        round,
        round.hands.len() as int,
    )
}

/// The line that shows player hand `index`.
fn render_hand(hand: &PlayerHand, index: usize, marked: bool) -> (text: String)
    requires
        index < usize::MAX,
    ensures
        text@ == hand_line(hand@, index as int, marked),
{
    let mut text = String::from_str("Hand ");
    push_decimal(&mut text, index as u64 + 1);
    if marked {
        text.append(" *");
    }
    text.append(": ");
    text.append(cards_label(hand.hand().cards()).as_str());
    text.append(" (");
    let value = hand.hand().value();
    push_decimal(&mut text, value.total as u64);
    if value.is_soft {
        text.append(" soft");
    }
    text.append(") - ");
    text.append(hand_status_label(hand.status()));
    text.append(" - wager ");
    text.append(hand.wager().to_string().as_str());
    text.append("\n");
    text
}

/// The text that shows the round, one line per entry.
pub fn render_round(round: &Round, bankroll: Chips) -> (text: String)
    requires
        round.wf(),
    ensures
        text@ == round_text(round@, bankroll@),
{
    let mut text = String::from_str("Dealer: ");
    let phase = round.phase();
    if phase == RoundPhase::DealerTurn || phase == RoundPhase::Settled {
        let dealer = round.dealer_hand();
        text.append(cards_label(dealer.cards()).as_str());
        text.append(" (total ");
        push_decimal(&mut text, dealer.value().total as u64);
        text.append(")\n");
    } else {
        text.append(round.dealer_upcard().to_string().as_str());
        text.append(" [hidden]\n");
    }
    text.append("Available bankroll: ");
    text.append(bankroll.to_string().as_str());
    text.append("\n");
    let ghost head = text@;
    let hands = round.player_hands();
    let active = round.active_hand_index();
    let mut index: usize = 0;
    while index < hands.len()
        invariant
            hands@.map_values(|h: PlayerHand| h@) == round@.hands,
            active == round@.active,
            index <= hands@.len(),
            text@ == head + hand_lines(round@, index as int),
        decreases hands@.len() - index,
    {
        let hand = &hands[index];
        assert(hand@ == round@.hands[index as int]);
        let marked = match active {
            Some(position) => position == index,
            None => false,
        };
        let line = render_hand(hand, index, marked);
        text.append(line.as_str());
        index = index + 1;
    }
    text
}

/// The line of settled hand `index`, counted from one when shown.
pub open spec fn result_line(result: HandResult, index: int) -> Seq<char> {
    "  Hand "@ + decimal_text((index + 1) as nat) + ": "@ + outcome_word(result.outcome) + " (credit "@
        + chips_text(result.credit) + ")\n"@
}

/// The lines of the first `count` settled hands.
pub open spec fn result_lines(results: Seq<HandResult>, count: int) -> Seq<char>
    decreases count,
{
    if count <= 0 {
        Seq::empty()
    } else {
        result_lines(results, count - 1) + result_line(results[count - 1], count - 1)
    }
}

/// The settlement as shown to the player: each hand's outcome and credit,
/// the insurance when there was any, the total credit and the bankroll.
pub open spec fn settlement_text(settlement: SettlementView, bankroll: u64) -> Seq<char> {
    "Round result:\n"@ + result_lines(settlement.results, settlement.results.len() as int) + (if settlement.insurance_wager
        != 0 {
        "  Insurance: wager "@ + chips_text(settlement.insurance_wager) + ", credit "@ + chips_text(
            settlement.insurance_credit,
        ) + "\n"@
    } else {
        Seq::empty()
    }) + "  Total credit: "@ + chips_text(settlement.total_credit) + "\n"@ + "Bankroll after round: "@
        + chips_text(bankroll) + "\n"@
}

/// The text that shows a settlement, one line per entry.
pub fn render_settlement(settlement: &RoundSettlement, bankroll: Chips) -> (text: String)
    ensures
        text@ == settlement_text(settlement@, bankroll@),
{
    let mut text = String::from_str("Round result:\n");
    let ghost head = text@;
    let results = settlement.hand_results();
    let mut index: usize = 0;
    while index < results.len()
        invariant
            results@.map_values(|r: HandSettlement| r@) == settlement@.results,
            index <= results@.len(),
            text@ == head + result_lines(settlement@.results, index as int),
        decreases results@.len() - index,
    {
        let result = &results[index];
        assert(result@ == settlement@.results[index as int]);
        let ghost before = text@;
        text.append("  Hand ");
        push_decimal(&mut text, index as u64 + 1);
        text.append(": ");
        text.append(outcome_label(result.outcome()));
        text.append(" (credit ");
        text.append(result.credit().to_string().as_str());
        text.append(")\n");
        assert(text@ =~= before + result_line(settlement@.results[index as int], index as int));
        index = index + 1;
    }
    if settlement.insurance_wager().value() != 0 {
        text.append("  Insurance: wager ");
        text.append(settlement.insurance_wager().to_string().as_str());
        text.append(", credit ");
        text.append(settlement.insurance_credit().to_string().as_str());
        text.append("\n");
    }
    text.append("  Total credit: ");
    text.append(settlement.total_credit().to_string().as_str());
    text.append("\n");
    text.append("Bankroll after round: ");
    text.append(bankroll.to_string().as_str());
    text.append("\n");
    text
}

/// The words of the first `count` actions, each after a space.
pub open spec fn action_words(actions: Seq<PlayerAction>, count: int) -> Seq<char>
    decreases count,
{
    if count <= 0 {
        Seq::empty()
    } else {
        action_words(actions, count - 1) + seq![' '] + action_word(actions[count - 1])
    }
}

/// The line that lists the actions open to the player.
pub open spec fn actions_text(actions: Seq<PlayerAction>) -> Seq<char> {
    "Actions:"@ + action_words(actions, actions.len() as int) + "\n"@
}

/// The line that lists the actions open to the player, such as
/// `Actions: hit stand`.
pub fn render_actions(actions: &[PlayerAction]) -> (text: String)
    ensures
        text@ == actions_text(actions@),
{
    let mut text = String::from_str("Actions:");
    let ghost head = text@;
    let mut index: usize = 0;
    while index < actions.len()
        invariant
            index <= actions@.len(),
            text@ == head + action_words(actions@, index as int),
        decreases actions@.len() - index,
    {
        let ghost before = text@;
        proof {
            reveal_strlit(" ");
        }
        text.append(" ");
        text.append(action_label(actions[index]));
        assert(text@ =~= before + seq![' '] + action_word(actions@[index as int]));
        index = index + 1;
    }
    text.append("\n");
    text
}

// ---------------------------------------------------------------------------
// What the console does with a line
// ---------------------------------------------------------------------------

/// The banner shown before each bet.
pub open spec fn bankroll_banner_text(bankroll: u64) -> Seq<char> {
    "\nBankroll: "@ + chips_text(bankroll) + "\n"@
}

/// The banner shown before each bet, such as a blank line then
/// `Bankroll: 100 chips`.
pub fn bankroll_banner(bankroll: Chips) -> (text: String)
    ensures
        text@ == bankroll_banner_text(bankroll@),
{
    let mut text = String::from_str("\nBankroll: ");
    text.append(bankroll.to_string().as_str());
    text.append("\n");
    text
}

/// The message that ends a session whose bankroll cannot cover a wager.
pub open spec fn game_over_text(increment: u64) -> Seq<char> {
    "Game over: bankroll cannot cover the "@ + chips_text(increment) + " minimum wager.\n"@
}

/// The message that ends a session whose bankroll cannot cover the table's
/// smallest wager.
pub fn game_over_message(increment: Chips) -> (text: String)
    ensures
        text@ == game_over_text(increment@),
{
    let mut text = String::from_str("Game over: bankroll cannot cover the ");
    text.append(increment.to_string().as_str());
    text.append(" minimum wager.\n");
    text
}

/// The prompt for a bet.
pub open spec fn bet_prompt_text(increment: u64) -> Seq<char> {
    "Bet (multiple of "@ + chips_text(increment) + ", or quit): "@
}

/// The prompt for a bet, naming the table's wager step.
pub fn bet_prompt(increment: Chips) -> (text: String)
    ensures
        text@ == bet_prompt_text(increment@),
{
    let mut text = String::from_str("Bet (multiple of ");
    text.append(increment.to_string().as_str());
    text.append(", or quit): ");
    text
}

/// What follows a line typed at the betting prompt.
pub enum BetStep {
    /// The player quit.
    Quit,
    /// The line was refused; the message is shown and the prompt repeats.
    Retry(String),
    /// A round started.
    Play,
    /// A failure that ends the session.
    Fatal(SessionError),
}

/// The step that follows an attempt to start a round: a started round is
/// played, a refused wager is reported with the prompt repeated, and any
/// other failure ends the session.
pub open spec fn start_step_is(step: &BetStep, result: Result<(), SessionError>) -> bool {
    match result {
        Ok(()) => *step is Play,
        Err(SessionError::Wager(e)) => *step matches BetStep::Retry(message) && message@ == SessionError::Wager(
            e,
        ).text(),
        Err(e) => *step == BetStep::Fatal(e),
    }
}

/// Handles a line typed at the betting prompt: `q` or `quit` in any case
/// ends the session, a whole number of chips starts a round with that wager, and
/// anything else is refused. Whatever the shuffle yields, the session moves
/// as `start_outcome` says for a shoe holding the table's decks.
pub fn take_bet(session: &mut Session, line: &str) -> (step: BetStep)
    requires
        old(session).wf(),
    ensures
        final(session).wf(),
        step is Retry ==> final(session)@ == old(session)@,
        is_quit_word(line@) ==> step is Quit && final(session)@ == old(session)@,
        !is_quit_word(line@) ==> match u64_of_text(line@) {
            None => step matches BetStep::Retry(message) && message@ == "Enter a whole number of chips."@
                && final(session)@ == old(session)@,
            Some(value) => exists|shoe: Seq<Card>|
                {
                    &&& shoe.len() == old(session)@.rules.deck_count() as nat * 52
                    &&& shoe.to_multiset() == standard_shoe(old(session)@.rules.deck_count() as nat).to_multiset()
                    &&& final(session)@ == (#[trigger] start_outcome(old(session)@, Chips::spec_new(value), shoe)).1
                    &&& start_step_is(&step, start_outcome(old(session)@, Chips::spec_new(value), shoe).0)
                },
        },
{
    let wager = match parse_bet(line) {
        Ok(BetInput::Quit) => return BetStep::Quit,
        Ok(BetInput::Wager(wager)) => wager,
        Err(message) => return BetStep::Retry(String::from_str(message)),
    };
    let result = session.start_round(wager);
    let step = match result {
        Ok(()) => BetStep::Play,
        Err(SessionError::Wager(error)) => BetStep::Retry(SessionError::Wager(error).to_string()),
        Err(error) => BetStep::Fatal(error),
    };
    proof {
        let shoe = choose|shoe: Seq<Card>|
            {
                &&& shoe.len() == old(session)@.rules.deck_count() as nat * 52
                &&& shoe.to_multiset() == standard_shoe(old(session)@.rules.deck_count() as nat).to_multiset()
                &&& (result, session@) == #[trigger] start_outcome(old(session)@, wager, shoe)
            };
        assert(start_step_is(&step, start_outcome(old(session)@, wager, shoe).0));
    }
    step
}

/// What follows a line typed during a round.
pub enum RoundStep {
    /// The line was taken; the round is shown again.
    Continue,
    /// The line was refused; the message is shown, then the round again.
    Retry(String),
    /// A failure that ends the session.
    Fatal(SessionError),
}

/// The step that follows a request to the round: a refused input is
/// reported and the round goes on, any other failure ends the session.
pub open spec fn round_step_is(step: &RoundStep, result: Result<(), SessionError>) -> bool {
    match result {
        Ok(()) => *step is Continue,
        Err(e) => if is_recoverable(e) {
            *step matches RoundStep::Retry(message) && message@ == e.text()
        } else {
            *step == RoundStep::Fatal(e)
        },
    }
}

/// The step for the result of a request to the round.
fn round_step(result: Result<(), SessionError>) -> (step: RoundStep)
    ensures
        round_step_is(&step, result),
{
    match result {
        Ok(()) => RoundStep::Continue,
        Err(error) => if recoverable_round_input(error) {
            RoundStep::Retry(error.to_string())
        } else {
            RoundStep::Fatal(error)
        },
    }
}

/// Handles a line typed at the insurance prompt: a whole number of chips is
/// offered as insurance, anything else is refused.
pub fn take_insurance_input(session: &mut Session, line: &str) -> (step: RoundStep)
    requires
        old(session).wf(),
    ensures
        final(session).wf(),
        step is Retry ==> final(session)@ == old(session)@,
        match u64_of_text(line@) {
            None => step matches RoundStep::Retry(message) && message@ == "Enter a whole number of chips."@
                && final(session)@ == old(session)@,
            Some(value) => {
                let (result, after) = session_insurance_outcome(old(session)@, Chips::spec_new(value));
                final(session)@ == after && round_step_is(&step, result)
            },
        },
{
    let amount = match parse_chips(line) {
        Ok(amount) => amount,
        Err(message) => return RoundStep::Retry(String::from_str(message)),
    };
    proof {
        refused_insurance_changes_nothing(old(session)@, amount);
    }
    let result = session.place_insurance(amount);
    round_step(result)
}

/// Handles a line typed at the action prompt: an action is taken, `quit` is
/// refused as the round is not over, and anything else is refused.
pub fn take_action_input(session: &mut Session, line: &str) -> (step: RoundStep)
    requires
        old(session).wf(),
    ensures
        final(session).wf(),
        step is Retry ==> final(session)@ == old(session)@,
        match input_action_of(line@) {
            None => step matches RoundStep::Retry(message) && message@
                == "Unknown action. Enter one of the listed actions."@ && final(session)@ == old(session)@,
            Some(InputAction::Quit) => step matches RoundStep::Retry(message) && message@
                == "Quit is only available between rounds."@ && final(session)@ == old(session)@,
            Some(InputAction::Play(action)) => {
                let (result, after) = session_act_outcome(old(session)@, action);
                final(session)@ == after && round_step_is(&step, result)
            },
        },
{
    match parse_action(line) {
        Ok(InputAction::Quit) => RoundStep::Retry(String::from_str("Quit is only available between rounds.")),
        Ok(InputAction::Play(action)) => {
            proof {
                refused_actions_change_nothing(old(session)@, action);
            }
            let result = session.act(action);
            round_step(result)
        },
        Err(message) => RoundStep::Retry(String::from_str(message)),
    }
}

/// The round the console shows: the round in play, or else the settled
/// round awaiting collection.
pub open spec fn shown_round(session: SessionView) -> Option<RoundView> {
    match session.active {
        Some((round, _)) => Some(round),
        None => match session.completed {
            Some((round, _)) => Some(round),
            None => None,
        },
    }
}

/// What the console does next during a round.
pub enum RoundScreen {
    /// Show the text (the round) and ask for an insurance wager.
    AskInsurance(String),
    /// Show the text (the round and the open actions) and ask for an action.
    AskAction(String),
    /// Show the text (the round and its settlement); the round is over.
    Finished(String),
    /// The session holds no round to show.
    MissingRound,
    /// A settled round came without its settlement.
    MissingSettlement,
    /// The dealer's turn was left unplayed.
    UnresolvedDealerTurn,
}

/// The next screen of a round, chosen by its phase: the insurance prompt,
/// the action prompt with the open actions, or, once the round is settled,
/// its settlement, collected from the session. Only collecting a settlement
/// changes the session.
pub fn next_round_screen(session: &mut Session) -> (screen: RoundScreen)
    requires
        old(session).wf(),
    ensures
        final(session).wf(),
        match shown_round(old(session)@) {
            None => screen is MissingRound && final(session)@ == old(session)@,
            Some(round) => {
                let bankroll = old(session)@.bankroll;
                match round.phase {
                    RoundPhase::InsuranceOffer => screen matches RoundScreen::AskInsurance(text) && text@
                        == round_text(round, bankroll) && final(session)@ == old(session)@,
                    RoundPhase::PlayerTurns => screen matches RoundScreen::AskAction(text) && text@ == round_text(
                        round,
                        bankroll,
                    ) + actions_text(legal_actions_for(round, bankroll)) && final(session)@ == old(session)@,
                    RoundPhase::DealerTurn => screen is UnresolvedDealerTurn && final(session)@ == old(session)@,
                    RoundPhase::Settled => final(session)@ == (SessionView { completed: None, ..old(session)@ })
                        && match old(session)@.completed {
                        Some((_, settlement)) => screen matches RoundScreen::Finished(text) && text@ == round_text(
                            round,
                            bankroll,
                        ) + settlement_text(settlement, bankroll),
                        None => screen is MissingSettlement,
                    },
                }
            },
        },
{
    let bankroll = session.bankroll();
    let (phase, mut text) = match session.round() {
        None => return RoundScreen::MissingRound,
        Some(round) => {
            let mut text = render_round(round, bankroll);
            let phase = round.phase();
            if phase == RoundPhase::PlayerTurns {
                let actions = round.legal_actions(bankroll);
                text.append(render_actions(actions.as_slice()).as_str());
            }
            (phase, text)
        },
    };
    match phase {
        RoundPhase::InsuranceOffer => RoundScreen::AskInsurance(text),
        RoundPhase::PlayerTurns => RoundScreen::AskAction(text),
        RoundPhase::DealerTurn => RoundScreen::UnresolvedDealerTurn,
        RoundPhase::Settled => match session.finish_round() {
            Ok(Some(settlement)) => {
                text.append(render_settlement(&settlement, bankroll).as_str());
                RoundScreen::Finished(text)
            },
            _ => RoundScreen::MissingSettlement,
        },
    }
}

} // verus!
