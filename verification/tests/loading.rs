use investments_config::config::{
    default_expire_time, load_config, AlphaVantageConfig, Broker, BrokersConfig, Config,
    DepositConfig, PortfolioConfig,
};
use investments_config::date::Date;
use investments_config::decimal::Decimal;
use investments_config::error::ConfigError;
use investments_config::taxes::TaxPaymentDay;
use investments_config::validation::{
    check_contribution_dates, check_deposit_dates, check_merge_performance, check_merge_symbols,
    check_portfolios, supported_currency, validate,
};

fn day(year: i32, month: u32, day: u32) -> Date {
    Date { year, month, day }
}

fn units(mantissa: i128) -> Decimal {
    Decimal { mantissa, scale: 0 }
}

fn deposit(name: &str, open_date: Date, close_date: Date, contributions: &[Date]) -> DepositConfig {
    DepositConfig {
        name: name.to_owned(),
        open_date,
        close_date,
        currency: None,
        amount: units(1000),
        interest: Decimal { mantissa: 75, scale: 1 },
        capitalization: false,
        contributions: contributions.iter().map(|date| (*date, units(10))).collect(),
    }
}

fn portfolio(name: &str) -> PortfolioConfig {
    PortfolioConfig {
        name: name.to_owned(),
        broker: Broker::InteractiveBrokers,
        statements: "statements".to_owned(),
        currency: None,
        min_trade_volume: None,
        min_cash_assets: None,
        restrict_buying: None,
        restrict_selling: None,
        merge_performance: Vec::new(),
        assets: Vec::new(),
        tax_payment_day: TaxPaymentDay::default(),
        tax_deductions: Vec::new(),
    }
}

fn rules(pairs: &[(&str, &[&str])]) -> Vec<(String, Vec<String>)> {
    pairs
        .iter()
        .map(|(master, slaves)| {
            (master.to_string(), slaves.iter().map(|slave| slave.to_string()).collect())
        })
        .collect()
}

fn config(deposits: Vec<DepositConfig>, portfolios: Vec<PortfolioConfig>) -> Config {
    Config {
        db_path: String::new(),
        cache_expire_time: default_expire_time(),
        deposits,
        portfolios,
        brokers: BrokersConfig { interactive_brokers: None, open_broker: None },
        alphavantage: AlphaVantageConfig { api_key: "key".to_owned() },
    }
}

fn duplicate_symbol(symbol: &str) -> ConfigError {
    ConfigError::DuplicateMergeSymbol { symbol: symbol.to_owned() }
}

#[test]
fn minimal_config_is_loaded() {
    let loaded = load_config(config(Vec::new(), vec![portfolio("main")])).unwrap();
    assert_eq!(loaded.portfolios.len(), 1);
    assert_eq!(loaded, config(Vec::new(), vec![portfolio("main")]));
}

#[test]
fn empty_config_is_loaded() {
    assert_eq!(load_config(config(Vec::new(), Vec::new())), Ok(config(Vec::new(), Vec::new())));
}

#[test]
fn deposit_that_closes_before_it_opens_is_rejected() {
    let candidate = config(vec![deposit("savings", day(2020, 1, 2), day(2020, 1, 1), &[])], Vec::new());
    let expected = ConfigError::InvalidDepositDates {
        name: "savings".to_owned(),
        open_date: day(2020, 1, 2),
        close_date: day(2020, 1, 1),
    };
    assert_eq!(check_deposit_dates(&candidate), Err(expected.clone()));
    assert_eq!(validate(&candidate), Err(expected.clone()));
    assert!(expected.is_semantic());
    assert!(!expected.is_structural());
    assert_eq!(load_config(candidate), Err(expected));
}

#[test]
fn deposit_of_one_day_is_accepted() {
    let candidate = config(
        vec![deposit("savings", day(2020, 1, 1), day(2020, 1, 1), &[day(2020, 1, 1)])],
        Vec::new(),
    );
    assert_eq!(validate(&candidate), Ok(()));
}

#[test]
fn first_deposit_that_closes_before_it_opens_is_named() {
    let candidate = config(
        vec![
            deposit("fine", day(2020, 1, 1), day(2021, 1, 1), &[]),
            deposit("first", day(2020, 2, 1), day(2020, 1, 31), &[]),
            deposit("second", day(2021, 1, 1), day(2020, 1, 1), &[]),
        ],
        Vec::new(),
    );
    assert_eq!(
        load_config(candidate),
        Err(ConfigError::InvalidDepositDates {
            name: "first".to_owned(),
            open_date: day(2020, 2, 1),
            close_date: day(2020, 1, 31),
        })
    );
}

#[test]
fn contribution_outside_the_term_is_rejected() {
    let before = config(
        vec![deposit("savings", day(2020, 1, 10), day(2020, 12, 31), &[day(2020, 1, 9)])],
        Vec::new(),
    );
    assert_eq!(
        load_config(before),
        Err(ConfigError::InvalidContributionDate { name: "savings".to_owned(), date: day(2020, 1, 9) })
    );
    let after = config(
        vec![deposit(
            "savings",
            day(2020, 1, 10),
            day(2020, 12, 31),
            &[day(2020, 1, 10), day(2020, 12, 31), day(2021, 1, 1), day(2019, 1, 1)],
        )],
        Vec::new(),
    );
    assert_eq!(
        check_contribution_dates(&after),
        Err(ConfigError::InvalidContributionDate { name: "savings".to_owned(), date: day(2021, 1, 1) })
    );
}

#[test]
fn contribution_on_the_bounds_of_the_term_is_accepted() {
    let candidate = config(
        vec![deposit(
            "savings",
            day(2020, 1, 10),
            day(2020, 12, 31),
            &[day(2020, 1, 10), day(2020, 6, 1), day(2020, 12, 31)],
        )],
        Vec::new(),
    );
    assert_eq!(check_contribution_dates(&candidate), Ok(()));
    assert!(load_config(candidate).is_ok());
}

#[test]
fn dates_of_all_deposits_are_held_before_any_contribution() {
    let candidate = config(
        vec![
            deposit("early", day(2020, 1, 1), day(2020, 12, 31), &[day(2021, 6, 1)]),
            deposit("late", day(2021, 1, 1), day(2020, 1, 1), &[]),
        ],
        Vec::new(),
    );
    assert_eq!(
        load_config(candidate),
        Err(ConfigError::InvalidDepositDates {
            name: "late".to_owned(),
            open_date: day(2021, 1, 1),
            close_date: day(2020, 1, 1),
        })
    );
}

#[test]
fn deposits_may_share_a_name() {
    let candidate = config(
        vec![
            deposit("savings", day(2020, 1, 1), day(2020, 12, 31), &[]),
            deposit("savings", day(2021, 1, 1), day(2021, 12, 31), &[]),
        ],
        Vec::new(),
    );
    assert!(load_config(candidate).is_ok());
}

#[test]
fn portfolios_of_one_name_are_rejected() {
    let mut second = portfolio("main");
    second.broker = Broker::OpenBroker;
    second.statements = "elsewhere".to_owned();
    second.currency = Some("USD".to_owned());
    second.restrict_buying = Some(true);
    let candidate = config(Vec::new(), vec![portfolio("main"), portfolio("other"), second]);
    let expected = ConfigError::DuplicatePortfolioName { name: "main".to_owned() };
    assert_eq!(check_portfolios(&candidate), Err(expected.clone()));
    assert_eq!(load_config(candidate), Err(expected));
}

#[test]
fn portfolio_names_differ_by_case() {
    let candidate = config(Vec::new(), vec![portfolio("main"), portfolio("Main")]);
    assert!(load_config(candidate).is_ok());
}

#[test]
fn portfolio_in_an_unsupported_currency_is_rejected() {
    let mut euro = portfolio("euro");
    euro.currency = Some("EUR".to_owned());
    assert_eq!(
        load_config(config(Vec::new(), vec![portfolio("main"), euro])),
        Err(ConfigError::UnsupportedCurrency { currency: "EUR".to_owned() })
    );
}

#[test]
fn portfolio_in_a_supported_currency_is_accepted() {
    let mut roubles = portfolio("roubles");
    roubles.currency = Some("RUB".to_owned());
    let mut dollars = portfolio("dollars");
    dollars.currency = Some("USD".to_owned());
    assert!(load_config(config(Vec::new(), vec![roubles, dollars, portfolio("none")])).is_ok());
    assert!(supported_currency("RUB"));
    assert!(supported_currency("USD"));
    assert!(!supported_currency("rub"));
    assert!(!supported_currency("EUR"));
    assert!(!supported_currency(""));
}

#[test]
fn unsupported_currency_before_a_repeated_name_comes_first() {
    let mut euro = portfolio("euro");
    euro.currency = Some("EUR".to_owned());
    let candidate = config(Vec::new(), vec![portfolio("main"), euro, portfolio("main")]);
    assert_eq!(
        load_config(candidate),
        Err(ConfigError::UnsupportedCurrency { currency: "EUR".to_owned() })
    );
}

#[test]
fn repeated_name_comes_before_the_currency_of_the_same_portfolio() {
    let mut euro = portfolio("main");
    euro.currency = Some("EUR".to_owned());
    let candidate = config(Vec::new(), vec![portfolio("main"), euro]);
    assert_eq!(
        load_config(candidate),
        Err(ConfigError::DuplicatePortfolioName { name: "main".to_owned() })
    );
}

#[test]
fn deposits_are_held_before_portfolios() {
    let candidate = config(
        vec![deposit("savings", day(2020, 1, 1), day(2020, 12, 31), &[day(2019, 1, 1)])],
        vec![portfolio("main"), portfolio("main")],
    );
    assert_eq!(
        load_config(candidate),
        Err(ConfigError::InvalidContributionDate { name: "savings".to_owned(), date: day(2019, 1, 1) })
    );
}

#[test]
fn master_symbol_merged_into_another_is_rejected() {
    let mut main = portfolio("main");
    main.merge_performance = rules(&[("IWDA", &["VTI"]), ("VTI", &["VOO"])]);
    assert_eq!(load_config(config(Vec::new(), vec![main])), Err(duplicate_symbol("VTI")));
    let mut main = portfolio("main");
    main.merge_performance = rules(&[("VTI", &["VOO"]), ("IWDA", &["EEM", "VTI"])]);
    assert_eq!(load_config(config(Vec::new(), vec![main])), Err(duplicate_symbol("VTI")));
}

#[test]
fn symbol_named_twice_is_rejected() {
    assert_eq!(check_merge_symbols(&rules(&[("A", &["B"]), ("A", &["C"])])), Err(duplicate_symbol("A")));
    assert_eq!(check_merge_symbols(&rules(&[("A", &["B"]), ("C", &["B"])])), Err(duplicate_symbol("B")));
    assert_eq!(check_merge_symbols(&rules(&[("A", &["B", "B"])])), Err(duplicate_symbol("B")));
    assert_eq!(check_merge_symbols(&rules(&[("A", &["A"])])), Err(duplicate_symbol("A")));
    assert_eq!(
        check_merge_symbols(&rules(&[("A", &["B", "C"]), ("D", &["E", "C", "A"])])),
        Err(duplicate_symbol("C"))
    );
}

#[test]
fn symbols_named_once_are_accepted() {
    assert_eq!(check_merge_symbols(&Vec::new()), Ok(()));
    assert_eq!(check_merge_symbols(&rules(&[("A", &[])])), Ok(()));
    assert_eq!(check_merge_symbols(&rules(&[("A", &["B", "C"]), ("D", &["E"]), ("F", &[])])), Ok(()));
}

#[test]
fn symbols_are_held_portfolio_by_portfolio() {
    let mut first = portfolio("first");
    first.merge_performance = rules(&[("IWDA", &["VTI"])]);
    let mut second = portfolio("second");
    second.merge_performance = rules(&[("VTI", &["IWDA"])]);
    let candidate = config(Vec::new(), vec![first, second]);
    assert_eq!(check_merge_performance(&candidate), Ok(()));
    assert!(load_config(candidate).is_ok());
}

#[test]
fn names_and_currencies_of_all_portfolios_are_held_before_any_symbol() {
    let mut first = portfolio("first");
    first.merge_performance = rules(&[("A", &["A"])]);
    let mut second = portfolio("second");
    second.currency = Some("EUR".to_owned());
    assert_eq!(
        load_config(config(Vec::new(), vec![first, second])),
        Err(ConfigError::UnsupportedCurrency { currency: "EUR".to_owned() })
    );
}

#[test]
fn loading_keeps_what_the_caller_set() {
    let mut candidate = config(
        vec![deposit("savings", day(2020, 1, 1), day(2020, 12, 31), &[day(2020, 6, 1)])],
        vec![portfolio("main")],
    );
    candidate.db_path = "/var/db".to_owned();
    candidate.brokers = BrokersConfig::mock();
    let loaded = load_config(candidate).unwrap();
    assert_eq!(loaded.db_path, "/var/db");
    assert_eq!(loaded.cache_expire_time.seconds, 60);
    assert_eq!(loaded.brokers, BrokersConfig::mock());
    assert_eq!(loaded.alphavantage.api_key, "key");
    assert_eq!(
        loaded.deposits,
        vec![deposit("savings", day(2020, 1, 1), day(2020, 12, 31), &[day(2020, 6, 1)])]
    );
    assert_eq!(loaded.portfolios, vec![portfolio("main")]);
}
