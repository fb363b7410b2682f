use chrono::Datelike;
use investments_config::error::ConfigError;
use investments_config::taxes::{
    deserialize_tax_payment_day, tax_payment_day_from_text, TaxPaymentDay,
};

fn invalid(text: &str) -> Result<TaxPaymentDay, ConfigError> {
    Err(ConfigError::InvalidTaxPaymentDay { value: text.to_owned() })
}

#[test]
fn tax_payment_on_close_is_read() {
    assert_eq!(deserialize_tax_payment_day("on-close"), Ok(TaxPaymentDay::OnClose));
}

#[test]
fn tax_payment_day_and_month_are_read() {
    assert_eq!(deserialize_tax_payment_day("15.3"), Ok(TaxPaymentDay::Day { month: 3, day: 15 }));
    assert_eq!(deserialize_tax_payment_day("01.03"), Ok(TaxPaymentDay::Day { month: 3, day: 1 }));
    assert_eq!(deserialize_tax_payment_day("31.12"), Ok(TaxPaymentDay::Day { month: 12, day: 31 }));
    assert_eq!(deserialize_tax_payment_day("28.2"), Ok(TaxPaymentDay::Day { month: 2, day: 28 }));
    assert_eq!(deserialize_tax_payment_day("0031.0001"), Ok(TaxPaymentDay::Day { month: 1, day: 31 }));
}

#[test]
fn tax_payment_on_leap_day_is_rejected() {
    assert_eq!(deserialize_tax_payment_day("29.2"), invalid("29.2"));
    assert_eq!(deserialize_tax_payment_day("29.02"), invalid("29.02"));
}

#[test]
fn tax_payment_on_leap_day_is_rejected_in_every_year() {
    for year in [1900, 1999, 2000, 2019, 2020, 2024, 2100, -4, 262_142, -262_143, i32::MAX, i32::MIN] {
        assert_eq!(tax_payment_day_from_text("29.2", year), invalid("29.2"));
    }
}

#[test]
fn tax_payment_on_a_day_that_no_calendar_has_is_rejected() {
    assert_eq!(deserialize_tax_payment_day("31.4"), invalid("31.4"));
    assert_eq!(deserialize_tax_payment_day("30.2"), invalid("30.2"));
    assert_eq!(deserialize_tax_payment_day("0.1"), invalid("0.1"));
    assert_eq!(deserialize_tax_payment_day("1.0"), invalid("1.0"));
    assert_eq!(deserialize_tax_payment_day("1.13"), invalid("1.13"));
    assert_eq!(deserialize_tax_payment_day("32.1"), invalid("32.1"));
}

#[test]
fn tax_payment_day_of_another_shape_is_rejected() {
    for text in [
        "", ".", "15", "15.", ".3", "15.3.", "15.3.2020", "15-3", " 15.3", "15.3 ", "15 .3",
        "+15.3", "-15.3", "on-close ", "On-Close", "onclose", "15.3\n", "1५.3", "a.b",
    ] {
        assert_eq!(deserialize_tax_payment_day(text), invalid(text));
    }
}

#[test]
fn tax_payment_day_too_large_for_a_number_is_rejected() {
    assert_eq!(deserialize_tax_payment_day("4294967296.1"), invalid("4294967296.1"));
    assert_eq!(deserialize_tax_payment_day("1.4294967297"), invalid("1.4294967297"));
    assert_eq!(
        deserialize_tax_payment_day("99999999999999999999999.3"),
        invalid("99999999999999999999999.3")
    );
}

#[test]
fn tax_payment_day_does_not_depend_on_the_year() {
    for text in ["15.3", "28.2", "29.2", "31.4", "30.4", "31.12", "on-close", "x"] {
        let expected = deserialize_tax_payment_day(text);
        for year in [1999, 2000, 2020, 2023, 2100, -262_143, 262_142] {
            assert_eq!(tax_payment_day_from_text(text, year), expected);
        }
    }
}

#[test]
fn tax_payment_day_in_a_year_that_no_date_lies_in_is_rejected() {
    assert_eq!(tax_payment_day_from_text("15.3", 262_143), invalid("15.3"));
    assert_eq!(tax_payment_day_from_text("15.3", -262_144), invalid("15.3"));
    assert_eq!(tax_payment_day_from_text("on-close", 262_143), Ok(TaxPaymentDay::OnClose));
}

#[test]
fn tax_payment_day_is_the_fifteenth_of_march_by_default() {
    assert_eq!(TaxPaymentDay::default(), TaxPaymentDay::Day { month: 3, day: 15 });
}

fn by_pattern(text: &str, year: i32) -> Option<TaxPaymentDay> {
    if text == "on-close" {
        return Some(TaxPaymentDay::OnClose);
    }
    let pattern = regex::Regex::new(r"^(?P<day>[0-9]+)\.(?P<month>[0-9]+)$").unwrap();
    let captures = pattern.captures(text)?;
    let day = captures.name("day").unwrap().as_str().parse::<u32>().ok()?;
    let month = captures.name("month").unwrap().as_str().parse::<u32>().ok()?;
    if chrono::NaiveDate::from_ymd_opt(year, month, day).is_none() || (day, month) == (29, 2) {
        return None;
    }
    Some(TaxPaymentDay::Day { month, day })
}

#[test]
fn tax_payment_day_is_read_as_the_pattern_reads_it() {
    let year = chrono::Local::now().date_naive().year();
    let mut texts: Vec<String> = Vec::new();
    for day in 0..=33 {
        for month in 0..=14 {
            texts.push(format!("{}.{}", day, month));
            texts.push(format!("{:02}.{:02}", day, month));
        }
    }
    for text in [
        "", ".", "1", "1.", ".1", "1..1", "1.1.1", "1.1\n", "\n1.1", "1.1 ", "१.1", "1.१",
        "4294967295.1", "4294967296.1", "1.4294967296", "on-close", "on-close\n", "1a.1",
    ] {
        texts.push(text.to_owned());
    }
    for text in texts {
        assert_eq!(deserialize_tax_payment_day(&text).ok(), by_pattern(&text, year));
        assert_eq!(tax_payment_day_from_text(&text, 2020).ok(), by_pattern(&text, 2020));
    }
}
