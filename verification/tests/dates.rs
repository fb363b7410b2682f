use chrono::Datelike;
use investments_config::date::{deserialize_date, parse_date, Date};
use investments_config::error::ConfigError;

#[test]
fn date_with_dots_is_read() {
    assert_eq!(deserialize_date("31.12.2020"), Ok(Date { year: 2020, month: 12, day: 31 }));
}

#[test]
fn date_with_dashes_is_rejected() {
    assert_eq!(
        deserialize_date("2020-12-31"),
        Err(ConfigError::InvalidDate { value: "2020-12-31".to_owned() })
    );
}

#[test]
fn date_that_the_calendar_lacks_is_rejected() {
    assert!(deserialize_date("31.04.2020").is_err());
    assert!(deserialize_date("29.02.2019").is_err());
    assert_eq!(deserialize_date("29.02.2020"), Ok(Date { year: 2020, month: 2, day: 29 }));
}

#[test]
fn date_is_read_in_another_format() {
    assert_eq!(parse_date("2020-12-31", "%Y-%m-%d"), Ok(Date { year: 2020, month: 12, day: 31 }));
    assert!(parse_date("31.12.2020", "%Y-%m-%d").is_err());
}

#[test]
fn date_from_parts_agrees_with_the_calendar() {
    assert_eq!(Date::from_ymd_opt(2020, 2, 29), Some(Date { year: 2020, month: 2, day: 29 }));
    assert_eq!(Date::from_ymd_opt(2021, 2, 29), None);
    assert_eq!(Date::from_ymd_opt(1900, 2, 29), None);
    assert_eq!(Date::from_ymd_opt(2000, 2, 29), Some(Date { year: 2000, month: 2, day: 29 }));
    assert_eq!(Date::from_ymd_opt(2021, 13, 1), None);
    assert_eq!(Date::from_ymd_opt(2021, 0, 1), None);
    assert_eq!(Date::from_ymd_opt(2021, 4, 31), None);
    assert_eq!(Date::from_ymd_opt(2021, 1, 0), None);
    assert_eq!(Date::from_ymd_opt(262_143, 1, 1), None);
    assert!(Date::from_ymd_opt(262_142, 12, 31).is_some());
    assert!(Date::from_ymd_opt(-262_143, 1, 1).is_some());
    assert_eq!(Date::from_ymd_opt(-262_144, 12, 31), None);
}

#[test]
fn dates_are_ordered_by_time() {
    let earlier = Date { year: 2020, month: 12, day: 31 };
    let later = Date { year: 2021, month: 1, day: 1 };
    assert!(earlier.is_before(&later));
    assert!(!later.is_before(&earlier));
    assert!(!earlier.is_before(&earlier));
    assert!(earlier < later);
    assert!(Date { year: 2020, month: 3, day: 31 }.is_before(&Date { year: 2020, month: 4, day: 1 }));
    assert!(Date { year: 2020, month: 4, day: 1 }.is_before(&Date { year: 2020, month: 4, day: 2 }));
}

#[test]
fn date_is_read_as_the_calendar_crate_reads_it() {
    for text in [
        "31.12.2020", "1.1.2020", "01.01.0001", "29.02.2020", "29.02.2021", "31.04.2020",
        "2020-12-31", "31.12.20", "31.12.2020 ", " 31.12.2020", "31/12/2020", "", "31.12",
        "31.13.2020", "00.01.2020", "31.12.+2020", "31.12.-2020", "31.12.12020",
    ] {
        let expected = chrono::NaiveDate::parse_from_str(text, "%d.%m.%Y")
            .ok()
            .map(|date| Date { year: date.year(), month: date.month(), day: date.day() });
        assert_eq!(deserialize_date(text).ok(), expected);
        if expected.is_none() {
            assert_eq!(
                deserialize_date(text),
                Err(ConfigError::InvalidDate { value: text.to_owned() })
            );
        }
    }
}
