use investments_config::config::{
    default_expire_time, Broker, BrokerConfig, BrokersConfig, Config, Duration,
};
use investments_config::error::ConfigError;
use investments_config::localities::{russia, Country};

#[test]
fn broker_tokens_are_read() {
    assert_eq!(Broker::deserialize("interactive-brokers"), Ok(Broker::InteractiveBrokers));
    assert_eq!(Broker::deserialize("open-broker"), Ok(Broker::OpenBroker));
}

#[test]
fn broker_token_that_is_unknown_is_rejected_with_the_known_ones() {
    assert_eq!(
        Broker::deserialize("ib"),
        Err(ConfigError::UnknownVariant {
            value: "ib".to_owned(),
            expected: vec!["interactive-brokers".to_owned(), "open-broker".to_owned()],
        })
    );
}

#[test]
fn broker_token_is_taken_to_the_letter() {
    for token in ["", "Interactive-Brokers", "interactive_brokers", "open-broker ", "openbroker"] {
        match Broker::deserialize(token) {
            Err(ConfigError::UnknownVariant { value, expected }) => {
                assert_eq!(value, token);
                assert_eq!(expected, vec!["interactive-brokers", "open-broker"]);
            }
            other => panic!("{:?}", other),
        }
    }
}

#[test]
fn broker_names_are_their_tokens() {
    assert_eq!(Broker::InteractiveBrokers.name(), "interactive-brokers");
    assert_eq!(Broker::OpenBroker.name(), "open-broker");
    for broker in [Broker::InteractiveBrokers, Broker::OpenBroker] {
        assert_eq!(Broker::deserialize(broker.name()), Ok(broker));
    }
}

#[test]
fn mock_brokers_charge_nothing() {
    assert_eq!(BrokerConfig::mock(), BrokerConfig { deposit_commissions: Vec::new() });
    let brokers = BrokersConfig::mock();
    assert_eq!(brokers.interactive_brokers, Some(BrokerConfig::mock()));
    assert_eq!(brokers.open_broker, Some(BrokerConfig::mock()));
}

#[test]
fn mock_config_is_empty() {
    let config = Config::mock();
    assert_eq!(config.db_path, "/mock");
    assert_eq!(config.cache_expire_time, Duration { seconds: 60 });
    assert!(config.deposits.is_empty());
    assert!(config.portfolios.is_empty());
    assert_eq!(config.brokers, BrokersConfig::mock());
    assert_eq!(config.alphavantage.api_key, "mock");
}

#[test]
fn cache_expires_after_a_minute() {
    assert_eq!(default_expire_time(), Duration { seconds: 60 });
    assert_eq!(Duration::minutes(1), Duration { seconds: 60 });
    assert_eq!(Duration::minutes(-2), Duration { seconds: -120 });
    assert_eq!(Duration::minutes(0), Duration { seconds: 0 });
    assert_eq!(
        chrono::Duration::seconds(default_expire_time().seconds),
        chrono::Duration::minutes(1)
    );
}

#[test]
fn russia_is_a_country() {
    assert_eq!(russia(), Country::Russia);
}
