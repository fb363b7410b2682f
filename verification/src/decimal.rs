use std::str::FromStr;
use vstd::prelude::*;

use crate::error::{outcome_view, ConfigError, ErrorView};
use crate::text::{chars_of, number_up_to, read_number};

verus! {

/// The largest number of digits that a decimal can have after the point.
pub const MAX_SCALE: u32 = 28;

/// The largest mantissa that a decimal can have: 96 bits, all set.
pub const MAX_MANTISSA: i128 = 79_228_162_514_264_337_593_543_950_335;

/// Ten to the power `exponent`.
pub open spec fn pow10(exponent: nat) -> nat
    decreases exponent,
{
    if exponent == 0 {
        1
    } else {
        10 * pow10((exponent - 1) as nat)
    }
}

/// A decimal number: `mantissa` divided by ten to the power `scale`.
///
/// Two decimals are equal when they are written alike: `0.5` with scale 1 and
/// `0.50` with scale 2 are the same number and unequal values.
#[derive(Debug, Clone, Copy, PartialEq, Eq, Structural, Hash)]
pub struct Decimal {
    pub mantissa: i128,
    pub scale: u32,
}

impl Decimal {
    /// Whether the mantissa fits in 96 bits and a sign, and the scale is 28 at
    /// most.
    pub open spec fn is_valid(self) -> bool {
        self.scale <= MAX_SCALE && -MAX_MANTISSA <= self.mantissa <= MAX_MANTISSA
    }

    /// Whether the number is `numerator / denominator` exactly.
    pub open spec fn is_fraction(self, numerator: int, denominator: int) -> bool {
        self.mantissa * denominator == numerator * pow10(self.scale as nat)
    }

    /// Whether the number is greater than zero.
    pub open spec fn positive(self) -> bool {
        self.mantissa > 0
    }

    /// Whether the number is greater than zero.
    pub fn is_positive(&self) -> (positive: bool)
        ensures
            positive == self.positive(),
    {
        self.mantissa > 0
    }
}

/// The decimal that `rust_decimal` reads in `text`, as mantissa and scale;
/// `None` where it reads none.
pub uninterp spec fn decimal_text_value(text: Seq<char>) -> Option<(i128, u32)>;

/// Reads `text` with `rust_decimal::Decimal::from_str` and takes the number
/// apart with `Decimal::mantissa` and `Decimal::scale`.
///
/// Claimed of it: the outcome depends on the text alone; the mantissa of a
/// number that comes out fits in 96 bits and a sign, and its scale is 28 at
/// most.
#[verifier::external_body]
fn decimal_from_text(text: &str) -> (parsed: Option<(i128, u32)>)
    ensures
        parsed == decimal_text_value(text@),
        parsed matches Some((mantissa, scale)) ==> (Decimal { mantissa, scale }).is_valid(),
{
    match rust_decimal::Decimal::from_str(text) {
        Ok(number) => Some((number.mantissa(), number.scale())),
        Err(_) => None,
    }
}

/// What reading `text` as an amount comes to, once `parsed` is known: the
/// number, if there is one and it is greater than zero.
pub open spec fn amount_outcome(parsed: Option<(i128, u32)>, text: Seq<char>) -> Result<
    Decimal,
    ErrorView,
> {
    match parsed {
        Some((mantissa, scale)) if mantissa > 0 => Ok(Decimal { mantissa, scale }),
        _ => Err(ErrorView::InvalidAmount { value: text }),
    }
}

/// Turns what was read in `text` into an amount, or into the error that
/// names `text`.
pub fn amount_from_parsed(parsed: Option<(i128, u32)>, text: &str) -> (amount: Result<
    Decimal,
    ConfigError,
>)
    ensures
        outcome_view(amount) == amount_outcome(parsed, text@),
{
    match parsed {
        Some((mantissa, scale)) => {
            if mantissa > 0 {
                return Ok(Decimal { mantissa, scale });
            }
        },
        None => {},
    }
    Err(ConfigError::InvalidAmount { value: text.to_owned() })
}

/// Reads `text` as an amount of money: a decimal number greater than zero.
pub fn parse_amount(text: &str) -> (amount: Result<Decimal, ConfigError>)
    ensures
        outcome_view(amount) == amount_outcome(decimal_text_value(text@), text@),
        amount matches Ok(number) ==> number.is_valid() && number.positive(),
{
    amount_from_parsed(decimal_from_text(text), text)
}

/// The number of percent that `text` writes: digits, which a `+` may precede,
/// then `%`, and 100 at most.
pub open spec fn percent_of(text: Seq<char>) -> Option<nat> {
    if text.len() > 0 && text.last() == '%' {
        let number = text.drop_last();
        if number.len() > 0 && number[0] == '+' {
            number_up_to(number.skip(1), 100)
        } else {
            number_up_to(number, 100)
        }
    } else {
        None
    }
}

/// What reading `text` as a weight comes to: its percentage as hundredths.
pub open spec fn weight_outcome(text: Seq<char>) -> Result<Decimal, ErrorView> {
    match percent_of(text) {
        Some(percent) => Ok(Decimal { mantissa: percent as i128, scale: 2 }),
        None => Err(ErrorView::InvalidWeight { value: text }),
    }
}

/// Reads `text` as the weight of an asset in its group: `45%` is 0.45.
pub fn deserialize_weight(text: &str) -> (weight: Result<Decimal, ConfigError>)
    ensures
        outcome_view(weight) == weight_outcome(text@),
        weight matches Ok(number) ==> {
            &&& number.is_valid()
            &&& 0 <= number.mantissa <= 100
            &&& percent_of(text@) matches Some(percent)
            &&& number.is_fraction(percent as int, 100)
        },
{
    let chars = chars_of(text);
    let length = chars.len();
    if length == 0 || chars[length - 1] != '%' {
        return Err(ConfigError::InvalidWeight { value: text.to_owned() });
    }
    let from: usize = if length > 1 && chars[0] == '+' {
        1
    } else {
        0
    };
    assert(chars@.subrange(from as int, length - 1) =~= if from == 1 {
        text@.drop_last().skip(1)
    } else {
        text@.drop_last()
    });
    match read_number(&chars, from, length - 1, 100) {
        Some(percent) => {
            assert(pow10(2) == 100) by {
                reveal_with_fuel(pow10, 3);
            }
            Ok(Decimal { mantissa: percent as i128, scale: 2 })
        },
        None => Err(ConfigError::InvalidWeight { value: text.to_owned() }),
    }
}

} // verus!
