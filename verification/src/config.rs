use vstd::prelude::*;

use crate::date::Date;
use crate::decimal::Decimal;
use crate::error::{outcome_view, ConfigError, ErrorView};
use crate::localities::{russia, Country};
use crate::paths::{expand_statements, is_home_path};
use crate::taxes::TaxPaymentDay;
use crate::text::{contains_text, same_text, texts};
use crate::validation::{portfolio_names, validate};

verus! {

/// A span of time in whole seconds.
#[derive(Debug, Clone, Copy, PartialEq, Eq, Structural)]
pub struct Duration {
    pub seconds: i64,
}

impl Duration {
    /// The span of `minutes` minutes.
    pub fn minutes(minutes: i64) -> (span: Duration)
        requires
            i64::MIN <= minutes * 60 <= i64::MAX,
        ensures
            span.seconds == minutes * 60,
    {
        Duration { seconds: minutes * 60 }
    }
}

/// How long a cached value stays good: one minute.
pub fn default_expire_time() -> (span: Duration)
    ensures
        span.seconds == 60,
{
    Duration::minutes(1)
}

/// The whole configuration.
///
/// `db_path` and `cache_expire_time` are not part of the document: whoever
/// loads a configuration sets them.
#[derive(Debug, PartialEq, Eq)]
pub struct Config {
    pub db_path: String,
    pub cache_expire_time: Duration,
    pub deposits: Vec<DepositConfig>,
    pub portfolios: Vec<PortfolioConfig>,
    pub brokers: BrokersConfig,
    pub alphavantage: AlphaVantageConfig,
}

/// A deposit: money lent to a bank from `open_date` to `close_date`.
#[derive(Debug, PartialEq, Eq)]
pub struct DepositConfig {
    pub name: String,
    pub open_date: Date,
    pub close_date: Date,
    pub currency: Option<String>,
    pub amount: Decimal,
    pub interest: Decimal,
    pub capitalization: bool,
    pub contributions: Vec<(Date, Decimal)>,
}

/// A portfolio held at a broker.
///
/// `merge_performance` pairs a master symbol with the symbols whose
/// performance is reported under it.
#[derive(Debug, PartialEq, Eq)]
pub struct PortfolioConfig {
    pub name: String,
    pub broker: Broker,
    pub statements: String,
    pub currency: Option<String>,
    pub min_trade_volume: Option<Decimal>,
    pub min_cash_assets: Option<Decimal>,
    pub restrict_buying: Option<bool>,
    pub restrict_selling: Option<bool>,
    pub merge_performance: Vec<(String, Vec<String>)>,
    pub assets: Vec<AssetAllocationConfig>,
    pub tax_payment_day: TaxPaymentDay,
    pub tax_deductions: Vec<(Date, Decimal)>,
}

/// A node of the tree that says how a portfolio is to be divided: a stock,
/// where it has a symbol, a group, where it has assets of its own, or both.
#[derive(Debug, PartialEq, Eq)]
pub struct AssetAllocationConfig {
    pub name: String,
    pub symbol: Option<String>,
    pub weight: Decimal,
    pub restrict_buying: Option<bool>,
    pub restrict_selling: Option<bool>,
    pub assets: Option<Vec<AssetAllocationConfig>>,
}

/// The settings of each broker.
#[derive(Debug, PartialEq, Eq)]
pub struct BrokersConfig {
    pub interactive_brokers: Option<BrokerConfig>,
    pub open_broker: Option<BrokerConfig>,
}

/// The settings of one broker: what it charges for each kind of deposit
/// transaction.
#[derive(Debug, Clone, PartialEq, Eq)]
pub struct BrokerConfig {
    pub deposit_commissions: Vec<(String, TransactionCommissionSpec)>,
}

/// A commission of a fixed amount.
#[derive(Debug, Clone, Copy, PartialEq, Eq, Structural)]
pub struct TransactionCommissionSpec {
    pub fixed_amount: Decimal,
}

/// The brokers that a portfolio can be held at.
#[derive(Debug, Clone, Copy, PartialEq, Eq, Structural)]
pub enum Broker {
    InteractiveBrokers,
    OpenBroker,
}

/// The access to the AlphaVantage service.
#[derive(Debug, PartialEq, Eq)]
pub struct AlphaVantageConfig {
    pub api_key: String,
}

impl Broker {
    /// The token that stands for this broker in a configuration.
    pub open spec fn token(self) -> Seq<char> {
        match self {
            Broker::InteractiveBrokers => "interactive-brokers"@,
            Broker::OpenBroker => "open-broker"@,
        }
    }

    /// Every broker, in the order in which their tokens are listed.
    pub open spec fn all() -> Seq<Broker> {
        seq![Broker::InteractiveBrokers, Broker::OpenBroker]
    }

    /// The tokens of all brokers.
    pub open spec fn tokens() -> Seq<Seq<char>> {
        seq![Broker::InteractiveBrokers.token(), Broker::OpenBroker.token()]
    }

    /// The broker that `token` stands for.
    pub open spec fn of_token(token: Seq<char>) -> Option<Broker> {
        if token == Broker::InteractiveBrokers.token() {
            Some(Broker::InteractiveBrokers)
        } else if token == Broker::OpenBroker.token() {
            Some(Broker::OpenBroker)
        } else {
            None
        }
    }

    /// What reading `token` as a broker comes to: the broker, or the error
    /// that lists the tokens of all brokers.
    pub open spec fn outcome(token: Seq<char>) -> Result<Broker, ErrorView> {
        match Self::of_token(token) {
            Some(broker) => Ok(broker),
            None => Err(ErrorView::UnknownVariant { value: token, expected: Self::tokens() }),
        }
    }

    /// The token that stands for this broker in a configuration.
    pub fn name(self) -> (token: &'static str)
        ensures
            token@ == self.token(),
    {
        match self {
            Broker::InteractiveBrokers => "interactive-brokers",
            Broker::OpenBroker => "open-broker",
        }
    }

    /// Reads `value` as the token of a broker.
    pub fn deserialize(value: &str) -> (broker: Result<Broker, ConfigError>)
        ensures
            outcome_view(broker) == Self::outcome(value@),
    {
        let all = [Broker::InteractiveBrokers, Broker::OpenBroker];
        assert(all@ =~= Self::all());
        let mut expected: Vec<String> = Vec::new();
        let mut i: usize = 0;
        assert(texts(expected@) =~= Self::tokens().take(0));
        while i < all.len()
            invariant
                i <= all.len(),
                all@ == Self::all(),
                texts(expected@) == Self::tokens().take(i as int),
                forall|j: int| 0 <= j < i ==> (#[trigger] Self::all()[j]).token() != value@,
            decreases all.len() - i,
        {
            let token = all[i].name();
            if same_text(value, token) {
                assert(i > 0 ==> Self::all()[0].token() != value@);
                return Ok(all[i]);
            }
            let ghost listed = expected@;
            expected.push(token.to_owned());
            assert(texts(expected@) =~= texts(listed).push(token@));
            assert(Self::tokens()[i as int] == token@);
            i += 1;
            assert(texts(expected@) =~= Self::tokens().take(i as int));
        }
        assert(Self::tokens().take(i as int) =~= Self::tokens());
        assert(Self::all()[0].token() != value@);
        assert(Self::all()[1].token() != value@);
        Err(ConfigError::UnknownVariant { value: value.to_owned(), expected })
    }
}

impl Config {
    /// A configuration to try things on: no deposits, no portfolios, both
    /// brokers without commissions.
    pub fn mock() -> (config: Config)
        ensures
            config.db_path@ == "/mock"@,
            config.cache_expire_time.seconds == 60,
            config.deposits@.len() == 0,
            config.portfolios@.len() == 0,
            config.brokers.interactive_brokers matches Some(broker)
                && broker.deposit_commissions@.len() == 0,
            config.brokers.open_broker matches Some(broker) && broker.deposit_commissions@.len()
                == 0,
            config.alphavantage.api_key@ == "mock"@,
    {
        Config {
            db_path: "/mock".to_owned(),
            cache_expire_time: default_expire_time(),
            deposits: Vec::new(),
            portfolios: Vec::new(),
            brokers: BrokersConfig::mock(),
            alphavantage: AlphaVantageConfig { api_key: "mock".to_owned() },
        }
    }

    /// Whether `at` is the place of the first portfolio called `name`.
    pub open spec fn is_first_called(self, name: Seq<char>, at: int) -> bool {
        &&& 0 <= at < self.portfolios@.len()
        &&& self.portfolios@[at].name@ == name
        &&& forall|j: int| 0 <= j < at ==> (#[trigger] self.portfolios@[j]).name@ != name
    }

    /// The first portfolio called `name`.
    pub fn get_portfolio(&self, name: &str) -> (portfolio: Result<&PortfolioConfig, ConfigError>)
        ensures
            match portfolio {
                Ok(portfolio) => exists|at: int|
                    self.is_first_called(name@, at) && *portfolio == self.portfolios@[at],
                Err(error) => {
                    &&& error@ == (ErrorView::PortfolioNotDefined { name: name@ })
                    &&& forall|j: int|
                        0 <= j < self.portfolios@.len() ==> (#[trigger] self.portfolios@[j]).name@
                            != name@
                },
            },
    {
        let mut i: usize = 0;
        while i < self.portfolios.len()
            invariant
                i <= self.portfolios.len(),
                forall|j: int| 0 <= j < i ==> (#[trigger] self.portfolios@[j]).name@ != name@,
            decreases self.portfolios.len() - i,
        {
            if same_text(self.portfolios[i].name.as_str(), name) {
                assert(self.is_first_called(name@, i as int));
                return Ok(&self.portfolios[i]);
            }
            i += 1;
        }
        Err(ConfigError::PortfolioNotDefined { name: name.to_owned() })
    }
}

impl BrokersConfig {
    /// Settings to try things on: both brokers, without commissions.
    pub fn mock() -> (brokers: BrokersConfig)
        ensures
            brokers.interactive_brokers matches Some(broker) && broker.deposit_commissions@.len()
                == 0,
            brokers.open_broker matches Some(broker) && broker.deposit_commissions@.len() == 0,
    {
        BrokersConfig {
            interactive_brokers: Some(BrokerConfig::mock()),
            open_broker: Some(BrokerConfig::mock()),
        }
    }
}

impl BrokerConfig {
    /// Settings to try things on: no commissions.
    pub fn mock() -> (broker: BrokerConfig)
        ensures
            broker.deposit_commissions@.len() == 0,
            broker.kinds_distinct(),
    {
        BrokerConfig { deposit_commissions: Vec::new() }
    }

    /// Whether each kind of transaction is named once at most.
    pub open spec fn kinds_distinct(self) -> bool {
        self.deposit_commissions@.map_values(
            |entry: (String, TransactionCommissionSpec)| entry.0@,
        ).no_duplicates()
    }
}

/// The symbols carried by the first `count` trees of `assets`, at any depth.
pub open spec fn forest_symbols(assets: Seq<AssetAllocationConfig>, count: int) -> Set<Seq<char>> {
    Set::new(
        |symbol: Seq<char>|
            exists|i: int| 0 <= i < count && (#[trigger] assets[i]).stock_symbols().contains(symbol),
    )
}

impl AssetAllocationConfig {
    /// The symbol of this node itself, as a set of one member at most.
    pub open spec fn own_symbols(self) -> Set<Seq<char>> {
        match self.symbol {
            Some(symbol) => set![symbol@],
            None => Set::empty(),
        }
    }

    /// The symbols of the stocks of this tree: that of this node and those
    /// of the nodes below it, at any depth.
    pub open spec fn stock_symbols(self) -> Set<Seq<char>>
        decreases self,
    {
        Set::new(
            |symbol: Seq<char>|
                (self.symbol matches Some(own) && own@ == symbol) || match self.assets {
                    Some(assets) => exists|i: int|
                        0 <= i < assets.len() && (#[trigger] assets[i]).stock_symbols().contains(
                            symbol,
                        ),
                    None => false,
                },
        )
    }

    /// Adds to `symbols` the symbols of the stocks of this tree that it does
    /// not hold yet.
    pub fn get_stock_symbols(&self, symbols: &mut Vec<String>)
        ensures
            texts(old(symbols)@).no_duplicates() ==> texts(final(symbols)@).no_duplicates(),
            texts(final(symbols)@).to_set() == texts(old(symbols)@).to_set().union(
                self.stock_symbols(),
            ),
            old(symbols)@.is_prefix_of(final(symbols)@),
        decreases self,
    {
        broadcast use {
            Seq::lemma_push_to_set_commute,
            Seq::lemma_push_map_commute,
        };

        let ghost before = symbols@;
        if let Some(symbol) = &self.symbol {
            if !contains_text(symbols, symbol.as_str()) {
                symbols.push(symbol.clone());
                assert(texts(symbols@) == texts(before).push(symbol@));
            }
        }
        let ghost own = self.own_symbols();
        assert(texts(symbols@).to_set() =~= texts(before).to_set().union(own));
        if let Some(assets) = &self.assets {
            let mut i: usize = 0;
            assert(forest_symbols(assets@, 0) =~= Set::<Seq<char>>::empty());
            while i < assets.len()
                invariant
                    i <= assets.len(),
                    self.assets == Some(*assets),
                    texts(before).no_duplicates() ==> texts(symbols@).no_duplicates(),
                    texts(symbols@).to_set() == texts(before).to_set().union(own).union(
                        forest_symbols(assets@, i as int),
                    ),
                    before.is_prefix_of(symbols@),
                decreases assets.len() - i,
            {
                assert(decreases_to!(*assets => assets[i as int]));
                assert(decreases_to!(self.assets => self.assets->0));
                assert(decreases_to!(self => self.assets));
                assets[i].get_stock_symbols(symbols);
                assert(forest_symbols(assets@, i + 1) =~= forest_symbols(assets@, i as int).union(
                    assets@[i as int].stock_symbols(),
                ));
                i += 1;
            }
            assert(self.stock_symbols() =~= own.union(forest_symbols(assets@, assets.len() as int)));
        } else {
            assert(self.stock_symbols() =~= own);
        }
    }
}

impl PortfolioConfig {
    /// The symbols of the stocks that the portfolio is to hold.
    pub open spec fn stock_symbols(self) -> Set<Seq<char>> {
        forest_symbols(self.assets@, self.assets@.len() as int)
    }

    /// The symbols of the stocks that the portfolio is to hold, each of them
    /// once.
    pub fn get_stock_symbols(&self) -> (symbols: Vec<String>)
        ensures
            texts(symbols@).no_duplicates(),
            texts(symbols@).to_set() == self.stock_symbols(),
    {
        let mut symbols: Vec<String> = Vec::new();
        let mut i: usize = 0;
        assert(forest_symbols(self.assets@, 0) =~= Set::<Seq<char>>::empty());
        assert(texts(symbols@).to_set() =~= Set::<Seq<char>>::empty());
        while i < self.assets.len()
            invariant
                i <= self.assets.len(),
                texts(symbols@).no_duplicates(),
                texts(symbols@).to_set() == forest_symbols(self.assets@, i as int),
            decreases self.assets.len() - i,
        {
            self.assets[i].get_stock_symbols(&mut symbols);
            assert(forest_symbols(self.assets@, i + 1) =~= forest_symbols(
                self.assets@,
                i as int,
            ).union(self.assets@[i as int].stock_symbols()));
            i += 1;
        }
        symbols
    }

    /// The country to which the taxes on the portfolio are paid.
    pub fn get_tax_country(&self) -> (country: Country)
        ensures
            country == Country::Russia,
    {
        russia()
    }
}

/// Expanding the statements of the portfolios leaves a consistent
/// configuration consistent.
pub proof fn lemma_expansion_keeps_consistency(expanded: Config, config: Config)
    requires
        expanded.is_expanded_from(config),
        config.is_consistent(),
    ensures
        expanded.is_consistent(),
{
    assert(portfolio_names(expanded.portfolios@) =~= portfolio_names(config.portfolios@));
    assert forall|i: int| 0 <= i < expanded.portfolios@.len() implies {
        &&& (#[trigger] expanded.portfolios@[i]).currency_supported()
        &&& expanded.portfolios@[i].merge_symbols_unique()
    } by {
        assert(expanded.portfolios@[i].is_expanded_from(config.portfolios@[i]));
        assert(config.portfolios@[i].currency_supported());
        assert(config.portfolios@[i].merge_symbols_unique());
    }
}

/// Makes of `config`, as it was read from a document, the configuration to
/// work with: holds its values against each other, then expands the paths
/// to the statements of the portfolios.
pub fn load_config(config: Config) -> (loaded: Result<Config, ConfigError>)
    ensures
        match loaded {
            Ok(loaded) => {
                &&& config.is_consistent()
                &&& loaded.is_expanded_from(config)
                &&& loaded.is_consistent()
            },
            Err(error) => if config.is_consistent() {
                exists|at: int|
                    {
                        &&& 0 <= at < config.portfolios@.len()
                        &&& is_home_path(#[trigger] config.portfolios@[at].statements@)
                        &&& error@ == (ErrorView::HomeDirectoryUnresolved {
                            path: config.portfolios@[at].statements@,
                        })
                    }
            } else {
                error@.is_semantic() && config.is_first_violation(error@)
            },
        },
        config.is_consistent() && (forall|i: int|
            0 <= i < config.portfolios@.len() ==> !is_home_path(
                (#[trigger] config.portfolios@[i]).statements@,
            )) ==> loaded is Ok,
{
    let mut loaded = config;
    match validate(&loaded) {
        Ok(()) => {},
        Err(error) => {
            return Err(error);
        },
    }
    match expand_statements(&mut loaded) {
        Ok(()) => {},
        Err(error) => {
            return Err(error);
        },
    }
    proof {
        lemma_expansion_keeps_consistency(loaded, config);
    }
    Ok(loaded)
}

} // verus!
