use vstd::prelude::*;

use crate::date::{
    calendar_date_exists, current_year, days_in_common_month, is_calendar_date, MAX_YEAR, MIN_YEAR,
};
use crate::error::{outcome_view, ConfigError, ErrorView};
use crate::text::{chars_of, digits_value, is_digit, is_number, read_number, same_text};

verus! {

/// When the tax on the gains of a portfolio is paid.
#[derive(Debug, Clone, Copy, PartialEq, Eq, Structural)]
pub enum TaxPaymentDay {
    /// Every year on the day `day` of the month `month`.
    Day { month: u32, day: u32 },
    /// When the position is closed.
    OnClose,
}

impl Default for TaxPaymentDay {
    /// The fifteenth of March.
    fn default() -> (day: TaxPaymentDay)
        ensures
            day == (TaxPaymentDay::Day { month: 3, day: 15 }),
    {
        TaxPaymentDay::Day { month: 3, day: 15 }
    }
}

/// Whether every year has a day `day` of the month `month`: the calendar of a
/// year that is no leap year has it.
pub open spec fn is_yearly_date(month: int, day: int) -> bool {
    1 <= month <= 12 && 1 <= day <= days_in_common_month(month)
}

/// Whether `text` is a number, a dot at `dot` and a number again.
pub open spec fn splits_at(text: Seq<char>, dot: int) -> bool {
    &&& 0 <= dot < text.len()
    &&& text[dot] == '.'
    &&& is_number(text.take(dot))
    &&& is_number(text.skip(dot + 1))
}

/// The day and the month that `text` writes as two numbers with a dot between
/// them, the day first.
pub open spec fn day_month_of(text: Seq<char>) -> Option<(nat, nat)> {
    if exists|dot: int| splits_at(text, dot) {
        let dot = choose|dot: int| splits_at(text, dot);
        Some((digits_value(text.take(dot)), digits_value(text.skip(dot + 1))))
    } else {
        None
    }
}

/// The tax payment day that `text` writes, where the day of a year is held
/// against the calendar of `year`: `on-close`, or a day and a month that
/// `year` has and that is not the 29th of February.
pub open spec fn tax_payment_day_in_year(text: Seq<char>, year: int) -> Option<TaxPaymentDay> {
    if text == "on-close"@ {
        Some(TaxPaymentDay::OnClose)
    } else {
        match day_month_of(text) {
            Some((day, month)) => if is_calendar_date(year, month as int, day as int) && !(day
                == 29 && month == 2) {
                Some(TaxPaymentDay::Day { month: month as u32, day: day as u32 })
            } else {
                None
            },
            None => None,
        }
    }
}

/// The tax payment day that `text` writes: `on-close`, or a day and a month
/// that every year has.
pub open spec fn tax_payment_day_of(text: Seq<char>) -> Option<TaxPaymentDay> {
    if text == "on-close"@ {
        Some(TaxPaymentDay::OnClose)
    } else {
        match day_month_of(text) {
            Some((day, month)) => if is_yearly_date(month as int, day as int) {
                Some(TaxPaymentDay::Day { month: month as u32, day: day as u32 })
            } else {
                None
            },
            None => None,
        }
    }
}

/// What reading `text` as a tax payment day comes to, once it is known which
/// day it writes.
pub open spec fn tax_payment_day_outcome(day: Option<TaxPaymentDay>, text: Seq<char>) -> Result<
    TaxPaymentDay,
    ErrorView,
> {
    match day {
        Some(day) => Ok(day),
        None => Err(ErrorView::InvalidTaxPaymentDay { value: text }),
    }
}

/// A text splits into a number, a dot and a number in one way at most.
pub proof fn lemma_split_is_unique(text: Seq<char>, first: int, second: int)
    requires
        splits_at(text, first),
        splits_at(text, second),
    ensures
        first == second,
{
    if first < second {
        assert(text.take(second)[first] == text[first]);
        assert(is_digit(text.take(second)[first]));
    } else if second < first {
        assert(text.take(first)[second] == text[second]);
        assert(is_digit(text.take(first)[second]));
    }
}

/// The year against which a day of the year is held makes no difference, as
/// long as it is a year that a date can lie in.
pub proof fn lemma_tax_payment_day_in_any_year(text: Seq<char>, year: int)
    requires
        MIN_YEAR <= year <= MAX_YEAR,
    ensures
        tax_payment_day_in_year(text, year) == tax_payment_day_of(text),
{
}

/// The 29th of February is no tax payment day, whatever the year: a leap year
/// does not make it one.
pub proof fn lemma_leap_day_is_rejected(text: Seq<char>, year: int)
    requires
        day_month_of(text) == Some((29nat, 2nat)),
    ensures
        tax_payment_day_in_year(text, year) is None,
        tax_payment_day_of(text) is None,
{
    if text == "on-close"@ {
        reveal_strlit("on-close");
        let dot = choose|dot: int| splits_at(text, dot);
        assert(splits_at(text, dot));
        assert(text[0] == text.take(dot)[0]);
        assert(is_digit(text.take(dot)[0]));
    }
}

/// Reads `text` as a tax payment day, holding a day of the year against the
/// calendar of `year`.
pub fn tax_payment_day_from_text(text: &str, year: i32) -> (day: Result<TaxPaymentDay, ConfigError>)
    ensures
        outcome_view(day) == tax_payment_day_outcome(
            tax_payment_day_in_year(text@, year as int),
            text@,
        ),
{
    if same_text(text, "on-close") {
        return Ok(TaxPaymentDay::OnClose);
    }
    let chars = chars_of(text);
    let mut dot: usize = 0;
    while dot < chars.len() && chars[dot] != '.'
        invariant
            dot <= chars.len(),
            forall|i: int| 0 <= i < dot ==> chars@[i] != '.',
        decreases chars.len() - dot,
    {
        dot += 1;
    }
    if dot < chars.len() {
        let day = read_number(&chars, 0, dot, u32::MAX);
        let month = read_number(&chars, dot + 1, chars.len(), u32::MAX);
        assert(chars@.subrange(0, dot as int) =~= text@.take(dot as int));
        assert(chars@.subrange(dot + 1, chars.len() as int) =~= text@.skip(dot + 1));
        proof {
            if is_number(text@.take(dot as int)) && is_number(text@.skip(dot + 1)) {
                assert(splits_at(text@, dot as int));
                let chosen = choose|at: int| splits_at(text@, at);
                lemma_split_is_unique(text@, dot as int, chosen);
            } else {
                assert forall|at: int| !splits_at(text@, at) by {
                    if splits_at(text@, at) {
                        if at > dot {
                            assert(text@.take(at)[dot as int] == '.');
                            assert(is_digit(text@.take(at)[dot as int]));
                        }
                    }
                }
            }
        }
        match (day, month) {
            (Some(day), Some(month)) => {
                if calendar_date_exists(year, month, day) && !(day == 29 && month == 2) {
                    return Ok(TaxPaymentDay::Day { month, day });
                }
            },
            _ => {},
        }
    } else {
        assert forall|at: int| !splits_at(text@, at) by {}
    }
    Err(ConfigError::InvalidTaxPaymentDay { value: text.to_owned() })
}

/// Reads `text` as a tax payment day: `on-close`, or day and month as in
/// `15.3`.
///
/// The day is held against the calendar of the year that the clock shows,
/// which has no effect on the outcome.
pub fn deserialize_tax_payment_day(text: &str) -> (day: Result<TaxPaymentDay, ConfigError>)
    ensures
        outcome_view(day) == tax_payment_day_outcome(tax_payment_day_of(text@), text@),
{
    let year = current_year();
    proof {
        lemma_tax_payment_day_in_any_year(text@, year as int);
    }
    tax_payment_day_from_text(text, year)
}

} // verus!
