//! Whole-chip amounts with checked arithmetic.

use vstd::prelude::*;

verus! {

/// A non-negative whole number of chips.
#[derive(Debug, Clone, Copy, PartialEq, Eq, Structural, PartialOrd, Ord, Hash, Default)]
pub struct Chips(u64);

/// Failures of chip arithmetic.
#[derive(Debug, Clone, Copy, PartialEq, Eq, Structural)]
pub enum MoneyError {
    Overflow,
    InsufficientFunds { available: Chips, required: Chips },
    InexactRatio { amount: Chips, numerator: u64, denominator: u64 },
    ZeroDenominator,
}

/// Decimal digits of a natural number, most significant first.
pub open spec fn decimal_text(n: nat) -> Seq<char>
    decreases n,
{
    if n < 10 {
        seq![digit_char(n)]
    } else {
        decimal_text(n / 10) + seq![digit_char(n % 10)]
    }
}

/// The character of a decimal digit.
pub open spec fn digit_char(d: nat) -> char {
    if d == 0 {
        '0'
    } else if d == 1 {
        '1'
    } else if d == 2 {
        '2'
    } else if d == 3 {
        '3'
    } else if d == 4 {
        '4'
    } else if d == 5 {
        '5'
    } else if d == 6 {
        '6'
    } else if d == 7 {
        '7'
    } else if d == 8 {
        '8'
    } else {
        '9'
    }
}

fn digit_str(d: u64) -> (text: &'static str)
    requires
        d < 10,
    ensures
        text@ == seq![digit_char(d as nat)],
{
    if d == 0 {
        proof {
            reveal_strlit("0");
        }
        "0"
    } else if d == 1 {
        proof {
            reveal_strlit("1");
        }
        "1"
    } else if d == 2 {
        proof {
            reveal_strlit("2");
        }
        "2"
    } else if d == 3 {
        proof {
            reveal_strlit("3");
        }
        "3"
    } else if d == 4 {
        proof {
            reveal_strlit("4");
        }
        "4"
    } else if d == 5 {
        proof {
            reveal_strlit("5");
        }
        "5"
    } else if d == 6 {
        proof {
            reveal_strlit("6");
        }
        "6"
    } else if d == 7 {
        proof {
            reveal_strlit("7");
        }
        "7"
    } else if d == 8 {
        proof {
            reveal_strlit("8");
        }
        "8"
    } else {
        proof {
            reveal_strlit("9");
        }
        "9"
    }
}

/// Appends the decimal digits of `n` to `text`.
pub fn push_decimal(text: &mut String, n: u64)
    ensures
        final(text)@ == old(text)@ + decimal_text(n as nat),
    decreases n,
{
    if n >= 10 {
        push_decimal(text, n / 10);
    }
    text.append(digit_str(n % 10));
}

impl View for Chips {
    type V = u64;

    closed spec fn view(&self) -> u64 {
        self.0
    }
}

/// The printed form of an amount: its decimal digits and the word `chips`.
pub open spec fn chips_text(amount: u64) -> Seq<char> {
    decimal_text(amount as nat) + seq![' ', 'c', 'h', 'i', 'p', 's']
}

impl Chips {
    /// The amount of no chips.
    pub fn zero() -> (chips: Chips)
        ensures
            chips@ == 0,
    {
        Chips(0)
    }

    /// The amount of `value` chips.
    pub fn new(value: u64) -> (chips: Chips)
        ensures
            chips@ == value,
    {
        Chips(value)
    }

    /// The number of chips.
    pub fn value(self) -> (value: u64)
        ensures
            value == self@,
    {
        self.0
    }

    /// Equal amounts are equal values.
    pub broadcast proof fn lemma_view_eq(a: Chips, b: Chips)
        ensures
            (#[trigger] a@ == #[trigger] b@) <==> a == b,
    {
    }

    /// Sum of two amounts; `Overflow` exactly when the sum exceeds `u64::MAX`.
    pub fn checked_add(self, other: Chips) -> (result: Result<Chips, MoneyError>)
        ensures
            self@ + other@ <= u64::MAX ==> result == Ok::<Chips, MoneyError>(Chips::spec_new((self@ + other@) as u64)),
            self@ + other@ > u64::MAX ==> result == Err::<Chips, MoneyError>(MoneyError::Overflow),
    {
        match self.0.checked_add(other.0) {
            Some(sum) => Ok(Chips(sum)),
            None => Err(MoneyError::Overflow),
        }
    }

    /// Difference of two amounts; `InsufficientFunds` exactly when `other`
    /// exceeds `self`.
    pub fn checked_sub(self, other: Chips) -> (result: Result<Chips, MoneyError>)
        ensures
            other@ <= self@ ==> result == Ok::<Chips, MoneyError>(Chips::spec_new((self@ - other@) as u64)),
            other@ > self@ ==> result == Err::<Chips, MoneyError>(
                MoneyError::InsufficientFunds { available: self, required: other },
            ),
    {
        match self.0.checked_sub(other.0) {
            Some(difference) => Ok(Chips(difference)),
            None => Err(MoneyError::InsufficientFunds { available: self, required: other }),
        }
    }

    /// Product with a whole multiplier; `Overflow` exactly when the product
    /// exceeds `u64::MAX`.
    pub fn checked_mul(self, multiplier: u64) -> (result: Result<Chips, MoneyError>)
        ensures
            self@ * multiplier <= u64::MAX ==> result == Ok::<Chips, MoneyError>(Chips::spec_new((self@ * multiplier) as u64)),
            self@ * multiplier > u64::MAX ==> result == Err::<Chips, MoneyError>(MoneyError::Overflow),
    {
        match self.0.checked_mul(multiplier) {
            Some(product) => Ok(Chips(product)),
            None => Err(MoneyError::Overflow),
        }
    }

    /// The amount scaled by `numerator / denominator`, computed exactly.
    pub fn checked_mul_ratio(self, numerator: u64, denominator: u64) -> (result: Result<Chips, MoneyError>)
        ensures
            result == Chips::ratio_result(self, numerator, denominator),
    {
        if denominator == 0 {
            return Err(MoneyError::ZeroDenominator);
        }
        let product = match self.0.checked_mul(numerator) {
            Some(product) => product,
            None => return Err(MoneyError::Overflow),
        };
        if product % denominator != 0 {
            return Err(MoneyError::InexactRatio { amount: self, numerator, denominator });
        }
        Ok(Chips(product / denominator))
    }

    /// The outcome of scaling `amount` by `numerator / denominator`: the
    /// denominator must be positive, the intermediate product must fit in a
    /// `u64`, and the quotient must be whole.
    pub open spec fn ratio_result(amount: Chips, numerator: u64, denominator: u64) -> Result<Chips, MoneyError> {
        if denominator == 0 {
            Err(MoneyError::ZeroDenominator)
        } else if amount@ * numerator > u64::MAX {
            Err(MoneyError::Overflow)
        } else if (amount@ * numerator) % (denominator as int) != 0 {
            Err(MoneyError::InexactRatio { amount, numerator, denominator })
        } else {
            Ok(Chips::spec_new(((amount@ * numerator) / (denominator as int)) as u64))
        }
    }

    /// The amount holding `value` chips.
    pub closed spec fn spec_new(value: u64) -> Chips {
        Chips(value)
    }

    /// `spec_new` builds the amount with the given value.
    pub broadcast proof fn lemma_spec_new(value: u64)
        ensures
            #[trigger] Chips::spec_new(value)@ == value,
    {
    }

    /// The printed form, such as `125 chips`.
    pub fn to_string(&self) -> (text: String)
        ensures
            text@ == chips_text(self@),
    {
        let mut text = String::new();
        push_decimal(&mut text, self.0);
        proof {
            reveal_strlit(" chips");
        }
        text.append(" chips");
        text
    }
}

/// How a shortfall is reported: what was available and what was required.
pub open spec fn shortfall_text(available: u64, required: u64) -> Seq<char> {
    "insufficient funds: "@ + chips_text(available) + " available, "@ + chips_text(required) + " required"@
}

/// The report of a shortfall.
pub fn shortfall_message(available: Chips, required: Chips) -> (text: String)
    ensures
        text@ == shortfall_text(available@, required@),
{
    let mut text = String::from_str("insufficient funds: ");
    text.append(available.to_string().as_str());
    text.append(" available, ");
    text.append(required.to_string().as_str());
    text.append(" required");
    text
}

impl MoneyError {
    /// The message the error is reported with.
    pub open spec fn text(self) -> Seq<char> {
        match self {
            MoneyError::Overflow => "chip arithmetic overflow"@,
            MoneyError::InsufficientFunds { available, required } => shortfall_text(available@, required@),
            MoneyError::InexactRatio { amount, numerator, denominator } => chips_text(amount@)
                + " cannot be multiplied exactly by "@ + decimal_text(numerator as nat) + ":"@ + decimal_text(
                denominator as nat,
            ),
            MoneyError::ZeroDenominator => "payout denominator cannot be zero"@,
        }
    }

    /// The message the error is reported with, such as
    /// `chip arithmetic overflow`.
    pub fn to_string(&self) -> (text: String)
        ensures
            text@ == self.text(),
    {
        match self {
            MoneyError::Overflow => String::from_str("chip arithmetic overflow"),
            MoneyError::InsufficientFunds { available, required } => shortfall_message(*available, *required),
            MoneyError::InexactRatio { amount, numerator, denominator } => {
                let mut text = amount.to_string();
                text.append(" cannot be multiplied exactly by ");
                push_decimal(&mut text, *numerator);
                text.append(":");
                push_decimal(&mut text, *denominator);
                text
            },
            MoneyError::ZeroDenominator => String::from_str("payout denominator cannot be zero"),
        }
    }
}

pub broadcast group group_chips {
    Chips::lemma_view_eq,
    Chips::lemma_spec_new,
}

} // verus!
