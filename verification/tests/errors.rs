use investments_config::date::Date;
use investments_config::error::ConfigError;

fn text() -> String {
    "text".to_owned()
}

fn day() -> Date {
    Date { year: 2020, month: 1, day: 1 }
}

#[test]
fn errors_of_a_single_value_are_structural() {
    let errors = [
        ConfigError::InvalidDate { value: text() },
        ConfigError::InvalidWeight { value: text() },
        ConfigError::InvalidTaxPaymentDay { value: text() },
        ConfigError::InvalidAmount { value: text() },
        ConfigError::UnknownVariant { value: text(), expected: vec![text()] },
    ];
    for error in errors {
        assert!(error.is_structural());
        assert!(!error.is_semantic());
    }
}

#[test]
fn errors_of_values_that_contradict_each_other_are_semantic() {
    let errors = [
        ConfigError::InvalidDepositDates { name: text(), open_date: day(), close_date: day() },
        ConfigError::InvalidContributionDate { name: text(), date: day() },
        ConfigError::DuplicatePortfolioName { name: text() },
        ConfigError::UnsupportedCurrency { currency: text() },
        ConfigError::DuplicateMergeSymbol { symbol: text() },
    ];
    for error in errors {
        assert!(error.is_semantic());
        assert!(!error.is_structural());
    }
}

#[test]
fn other_errors_are_of_neither_kind() {
    let errors = [
        ConfigError::HomeDirectoryUnresolved { path: text() },
        ConfigError::PortfolioNotDefined { name: text() },
    ];
    for error in errors {
        assert!(!error.is_semantic());
        assert!(!error.is_structural());
    }
}
