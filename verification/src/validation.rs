use vstd::hash_set::StringHashSet;
use vstd::prelude::*;

use crate::config::{Config, DepositConfig, PortfolioConfig};
use crate::date::Date;
use crate::error::{ConfigError, ErrorView};
use crate::text::{same_text, texts};

verus! {

/// Whether `at` is the first place of `items` whose item is named before:
/// up to there, no item occurs twice.
pub open spec fn is_first_repeat<T>(items: Seq<T>, at: int) -> bool {
    &&& 0 <= at < items.len()
    &&& items.take(at).no_duplicates()
    &&& items.take(at).contains(items[at])
}

/// Whether `currency` is one that a portfolio can be kept in.
pub open spec fn is_supported_currency(currency: Seq<char>) -> bool {
    currency == "RUB"@ || currency == "USD"@
}

/// The names of `portfolios`, in their order.
pub open spec fn portfolio_names(portfolios: Seq<PortfolioConfig>) -> Seq<Seq<char>> {
    portfolios.map_values(|portfolio: PortfolioConfig| portfolio.name@)
}

/// The symbols that one rule of performance merging names: the master
/// symbol, then the symbols that are merged into it.
pub open spec fn rule_symbols(rule: (String, Vec<String>)) -> Seq<Seq<char>> {
    seq![rule.0@] + texts(rule.1@)
}

/// The symbols that `rules` name, in the order in which they are named.
pub open spec fn merge_symbols(rules: Seq<(String, Vec<String>)>) -> Seq<Seq<char>>
    decreases rules.len(),
{
    if rules.len() == 0 {
        Seq::empty()
    } else {
        merge_symbols(rules.drop_last()) + rule_symbols(rules.last())
    }
}

impl DepositConfig {
    /// Whether the deposit does not close before it opens.
    pub open spec fn dates_ordered(self) -> bool {
        self.open_date.not_after(self.close_date)
    }

    /// Whether the contribution at `at` is made within the term of the
    /// deposit.
    pub open spec fn contribution_in_term(self, at: int) -> bool {
        self.contributions@[at].0.within(self.open_date, self.close_date)
    }

    /// Whether every contribution is made within the term of the deposit.
    pub open spec fn contributions_in_term(self) -> bool {
        forall|at: int| 0 <= at < self.contributions@.len() ==> self.contribution_in_term(at)
    }

    /// Whether `at` is the place of the first contribution that is made
    /// outside the term of the deposit.
    pub open spec fn is_first_stray_contribution(self, at: int) -> bool {
        &&& 0 <= at < self.contributions@.len()
        &&& !self.contribution_in_term(at)
        &&& forall|j: int| 0 <= j < at ==> self.contribution_in_term(j)
    }
}

impl PortfolioConfig {
    /// Whether the portfolio is kept in a supported currency, or names none.
    pub open spec fn currency_supported(self) -> bool {
        match self.currency {
            Some(currency) => is_supported_currency(currency@),
            None => true,
        }
    }

    /// Whether `at` is the first place, among the symbols that the rules of
    /// performance merging name, of a symbol that is named before.
    pub open spec fn is_first_repeated_symbol(self, at: int) -> bool {
        is_first_repeat(merge_symbols(self.merge_performance@), at)
    }

    /// Whether the rules of performance merging name no symbol twice.
    pub open spec fn merge_symbols_unique(self) -> bool {
        merge_symbols(self.merge_performance@).no_duplicates()
    }
}

impl Config {
    /// Whether no deposit closes before it opens.
    pub open spec fn deposit_dates_ordered(self) -> bool {
        forall|i: int| 0 <= i < self.deposits@.len() ==> (#[trigger] self.deposits@[i]).dates_ordered()
    }

    /// Whether every contribution of every deposit is made within its term.
    pub open spec fn contributions_in_term(self) -> bool {
        forall|i: int|
            0 <= i < self.deposits@.len() ==> (#[trigger] self.deposits@[i]).contributions_in_term()
    }

    /// Whether no two portfolios share a name.
    pub open spec fn portfolio_names_unique(self) -> bool {
        portfolio_names(self.portfolios@).no_duplicates()
    }

    /// Whether every portfolio is kept in a supported currency, or names none.
    pub open spec fn currencies_supported(self) -> bool {
        forall|i: int|
            0 <= i < self.portfolios@.len() ==> (#[trigger] self.portfolios@[i]).currency_supported()
    }

    /// Whether no portfolio names a symbol twice in its rules of performance
    /// merging.
    pub open spec fn merge_symbols_unique(self) -> bool {
        forall|i: int|
            0 <= i < self.portfolios@.len() ==> (
            #[trigger] self.portfolios@[i]).merge_symbols_unique()
    }

    /// Whether the values of the configuration agree with each other.
    pub open spec fn is_consistent(self) -> bool {
        &&& self.deposit_dates_ordered()
        &&& self.contributions_in_term()
        &&& self.portfolio_names_unique()
        &&& self.currencies_supported()
        &&& self.merge_symbols_unique()
    }

    /// Whether `at` is the place of the first deposit that closes before it
    /// opens.
    pub open spec fn is_first_unordered_deposit(self, at: int) -> bool {
        &&& 0 <= at < self.deposits@.len()
        &&& !self.deposits@[at].dates_ordered()
        &&& forall|j: int| 0 <= j < at ==> (#[trigger] self.deposits@[j]).dates_ordered()
    }

    /// Whether `at` is the place of the first deposit with a contribution
    /// outside its term.
    pub open spec fn is_first_deposit_with_stray(self, at: int) -> bool {
        &&& 0 <= at < self.deposits@.len()
        &&& !self.deposits@[at].contributions_in_term()
        &&& forall|j: int| 0 <= j < at ==> (#[trigger] self.deposits@[j]).contributions_in_term()
    }

    /// Whether `at` is the place of the first portfolio that repeats a name
    /// or is kept in an unsupported currency.
    pub open spec fn is_first_faulty_portfolio(self, at: int) -> bool {
        let names = portfolio_names(self.portfolios@);
        &&& 0 <= at < self.portfolios@.len()
        &&& names.take(at).no_duplicates()
        &&& forall|j: int| 0 <= j < at ==> (#[trigger] self.portfolios@[j]).currency_supported()
        &&& names.take(at).contains(names[at]) || !self.portfolios@[at].currency_supported()
    }

    /// Whether `at` is the place of the first portfolio that names a symbol
    /// twice in its rules of performance merging.
    pub open spec fn is_first_portfolio_with_repeat(self, at: int) -> bool {
        &&& 0 <= at < self.portfolios@.len()
        &&& !self.portfolios@[at].merge_symbols_unique()
        &&& forall|j: int| 0 <= j < at ==> (#[trigger] self.portfolios@[j]).merge_symbols_unique()
    }

    /// Whether `error` names the first deposit that closes before it opens,
    /// with its two dates.
    pub open spec fn finds_unordered_deposit(self, error: ErrorView) -> bool {
        match error {
            ErrorView::InvalidDepositDates { name, open_date, close_date } => exists|i: int|
                {
                    &&& #[trigger] self.is_first_unordered_deposit(i)
                    &&& name == self.deposits@[i].name@
                    &&& open_date == self.deposits@[i].open_date
                    &&& close_date == self.deposits@[i].close_date
                },
            _ => false,
        }
    }

    /// Whether `error` names the first deposit with a contribution outside
    /// its term, and the date of the first such contribution.
    pub open spec fn finds_stray_contribution(self, error: ErrorView) -> bool {
        match error {
            ErrorView::InvalidContributionDate { name, date } => exists|i: int, k: int|
                {
                    &&& #[trigger] self.is_first_deposit_with_stray(i)
                    &&& #[trigger] self.deposits@[i].is_first_stray_contribution(k)
                    &&& name == self.deposits@[i].name@
                    &&& date == self.deposits@[i].contributions@[k].0
                },
            _ => false,
        }
    }

    /// Whether `error` is about the first portfolio that repeats a name or is
    /// kept in an unsupported currency: its name, if an earlier portfolio
    /// has it, and else its currency.
    pub open spec fn finds_faulty_portfolio(self, error: ErrorView) -> bool {
        match error {
            ErrorView::DuplicatePortfolioName { name } => exists|i: int|
                {
                    &&& #[trigger] self.is_first_faulty_portfolio(i)
                    &&& is_first_repeat(portfolio_names(self.portfolios@), i)
                    &&& name == self.portfolios@[i].name@
                },
            ErrorView::UnsupportedCurrency { currency } => exists|i: int|
                {
                    &&& #[trigger] self.is_first_faulty_portfolio(i)
                    &&& !is_first_repeat(portfolio_names(self.portfolios@), i)
                    &&& self.portfolios@[i].currency matches Some(named)
                    &&& currency == named@
                },
            _ => false,
        }
    }

    /// Whether `error` names the first symbol that is named a second time in
    /// the rules of performance merging of the first portfolio that has
    /// such a symbol.
    pub open spec fn finds_repeated_symbol(self, error: ErrorView) -> bool {
        match error {
            ErrorView::DuplicateMergeSymbol { symbol } => exists|i: int, k: int|
                {
                    &&& #[trigger] self.is_first_portfolio_with_repeat(i)
                    &&& #[trigger] self.portfolios@[i].is_first_repeated_symbol(k)
                    &&& symbol == merge_symbols(self.portfolios@[i].merge_performance@)[k]
                },
            _ => false,
        }
    }

    /// Whether `error` is what the checks find first. They run one after the
    /// other, each over the whole configuration: that no deposit closes
    /// before it opens; that contributions are made within the term; that
    /// the portfolios, in their order, repeat no name and are kept in a
    /// supported currency; that no portfolio names a symbol twice in its
    /// rules of performance merging.
    pub open spec fn is_first_violation(self, error: ErrorView) -> bool {
        if !self.deposit_dates_ordered() {
            self.finds_unordered_deposit(error)
        } else if !self.contributions_in_term() {
            self.finds_stray_contribution(error)
        } else if !(self.portfolio_names_unique() && self.currencies_supported()) {
            self.finds_faulty_portfolio(error)
        } else {
            self.finds_repeated_symbol(error)
        }
    }
}

/// Looks for the first deposit that closes before it opens.
pub fn check_deposit_dates(config: &Config) -> (checked: Result<(), ConfigError>)
    ensures
        match checked {
            Ok(()) => config.deposit_dates_ordered(),
            Err(error) => config.finds_unordered_deposit(error@),
        },
{
    let mut i: usize = 0;
    while i < config.deposits.len()
        invariant
            i <= config.deposits.len(),
            forall|j: int| 0 <= j < i ==> (#[trigger] config.deposits@[j]).dates_ordered(),
        decreases config.deposits.len() - i,
    {
        let deposit = &config.deposits[i];
        if deposit.close_date.is_before(&deposit.open_date) {
            assert(config.is_first_unordered_deposit(i as int));
            return Err(
                ConfigError::InvalidDepositDates {
                    name: deposit.name.clone(),
                    open_date: deposit.open_date,
                    close_date: deposit.close_date,
                },
            );
        }
        i += 1;
    }
    Ok(())
}

impl DepositConfig {
    /// Looks for the first contribution that is made outside the term of
    /// the deposit, and gives its date.
    pub fn find_stray_contribution(&self) -> (stray: Option<Date>)
        ensures
            match stray {
                Some(date) => exists|at: int|
                    #[trigger] self.is_first_stray_contribution(at) && date
                        == self.contributions@[at].0,
                None => self.contributions_in_term(),
            },
    {
        let mut k: usize = 0;
        while k < self.contributions.len()
            invariant
                k <= self.contributions.len(),
                forall|j: int| 0 <= j < k ==> self.contribution_in_term(j),
            decreases self.contributions.len() - k,
        {
            let date = self.contributions[k].0;
            if date.is_before(&self.open_date) || self.close_date.is_before(&date) {
                assert(self.is_first_stray_contribution(k as int));
                return Some(date);
            }
            assert(self.contribution_in_term(k as int));
            k += 1;
        }
        None
    }
}

/// Looks for the first contribution that is made outside the term of its
/// deposit.
pub fn check_contribution_dates(config: &Config) -> (checked: Result<(), ConfigError>)
    ensures
        match checked {
            Ok(()) => config.contributions_in_term(),
            Err(error) => config.finds_stray_contribution(error@),
        },
{
    let mut i: usize = 0;
    while i < config.deposits.len()
        invariant
            i <= config.deposits.len(),
            forall|j: int| 0 <= j < i ==> (#[trigger] config.deposits@[j]).contributions_in_term(),
        decreases config.deposits.len() - i,
    {
        let deposit = &config.deposits[i];
        match deposit.find_stray_contribution() {
            Some(date) => {
                proof {
                    let k = choose|k: int|
                        #[trigger] deposit.is_first_stray_contribution(k) && date
                            == deposit.contributions@[k].0;
                    assert(!deposit.contribution_in_term(k));
                    assert(config.is_first_deposit_with_stray(i as int));
                    assert(config.deposits@[i as int].is_first_stray_contribution(k));
                }
                return Err(
                    ConfigError::InvalidContributionDate { name: deposit.name.clone(), date },
                );
            },
            None => {},
        }
        i += 1;
    }
    Ok(())
}

/// Adding an item that a sequence does not hold keeps it free of
/// duplicates and adds that item to its set.
pub proof fn lemma_push_fresh<T>(items: Seq<T>, item: T)
    requires
        items.no_duplicates(),
        !items.contains(item),
    ensures
        items.push(item).no_duplicates(),
        items.push(item).to_set() == items.to_set().insert(item),
{
    let longer = items.push(item);
    assert forall|i: int, j: int| 0 <= i < longer.len() && 0 <= j < longer.len() && i != j implies longer[i]
        != longer[j] by {
        if i < items.len() && j < items.len() {
            assert(items[i] != items[j]);
        } else if i < items.len() {
            assert(items.contains(items[i]));
        } else {
            assert(items.contains(items[j]));
        }
    }
    assert(longer.to_set() =~= items.to_set().insert(item)) by {
        assert forall|x: T| longer.to_set().contains(x) implies items.to_set().insert(
            item,
        ).contains(x) by {
            let i = choose|i: int| 0 <= i < longer.len() && longer[i] == x;
            if i < items.len() {
                assert(items.contains(items[i]));
            }
        }
        assert forall|x: T| items.to_set().insert(item).contains(x) implies longer.to_set().contains(
            x,
        ) by {
            if x == item {
                assert(longer[items.len() as int] == x);
            } else {
                let i = choose|i: int| 0 <= i < items.len() && items[i] == x;
                assert(longer[i] == x);
            }
        }
    }
}

/// Whether `currency` is one that a portfolio can be kept in.
pub fn supported_currency(currency: &str) -> (supported: bool)
    ensures
        supported == is_supported_currency(currency@),
{
    same_text(currency, "RUB") || same_text(currency, "USD")
}

/// Looks, portfolio by portfolio, for a name that an earlier portfolio has
/// and then for a currency that is not supported.
pub fn check_portfolios(config: &Config) -> (checked: Result<(), ConfigError>)
    ensures
        match checked {
            Ok(()) => config.portfolio_names_unique() && config.currencies_supported(),
            Err(error) => config.finds_faulty_portfolio(error@),
        },
{
    let ghost names = portfolio_names(config.portfolios@);
    let mut seen = StringHashSet::new();
    let mut i: usize = 0;
    assert(names.take(0).to_set() =~= Set::<Seq<char>>::empty());
    while i < config.portfolios.len()
        invariant
            i <= config.portfolios.len(),
            names == portfolio_names(config.portfolios@),
            seen@ == names.take(i as int).to_set(),
            names.take(i as int).no_duplicates(),
            forall|j: int| 0 <= j < i ==> (#[trigger] config.portfolios@[j]).currency_supported(),
        decreases config.portfolios.len() - i,
    {
        let portfolio = &config.portfolios[i];
        let ghost earlier = names.take(i as int);
        assert(names[i as int] == portfolio.name@);
        if !seen.insert(portfolio.name.clone()) {
            assert(earlier.to_set().contains(names[i as int]));
            assert(config.is_first_faulty_portfolio(i as int));
            assert(is_first_repeat(names, i as int));
            return Err(ConfigError::DuplicatePortfolioName { name: portfolio.name.clone() });
        }
        proof {
            assert(!earlier.to_set().contains(names[i as int]));
            assert(!earlier.contains(names[i as int]));
            lemma_push_fresh(earlier, names[i as int]);
            assert(names.take(i + 1) =~= earlier.push(names[i as int]));
        }
        match &portfolio.currency {
            Some(currency) => {
                if !supported_currency(currency.as_str()) {
                    assert(config.is_first_faulty_portfolio(i as int));
                    assert(!is_first_repeat(names, i as int));
                    return Err(ConfigError::UnsupportedCurrency { currency: currency.clone() });
                }
            },
            None => {},
        }
        i += 1;
    }
    assert(names.take(i as int) =~= names);
    Ok(())
}

/// The symbols of the first rules are the symbols of the rules before the
/// last of them, then those of that last one.
pub proof fn lemma_merge_symbols_step(rules: Seq<(String, Vec<String>)>, count: int)
    requires
        0 <= count < rules.len(),
    ensures
        merge_symbols(rules.take(count + 1)) == merge_symbols(rules.take(count)) + rule_symbols(
            rules[count],
        ),
{
    assert(rules.take(count + 1).drop_last() =~= rules.take(count));
}

/// The symbols of the first rules open the symbols of all rules.
pub proof fn lemma_merge_symbols_prefix(rules: Seq<(String, Vec<String>)>, count: int)
    requires
        0 <= count <= rules.len(),
    ensures
        merge_symbols(rules.take(count)).is_prefix_of(merge_symbols(rules)),
    decreases rules.len() - count,
{
    if count == rules.len() {
        assert(rules.take(count) =~= rules);
    } else {
        lemma_merge_symbols_step(rules, count);
        lemma_merge_symbols_prefix(rules, count + 1);
    }
}

/// Looks for the first symbol that `rules` name a second time.
pub fn check_merge_symbols(rules: &Vec<(String, Vec<String>)>) -> (checked: Result<
    (),
    ConfigError,
>)
    ensures
        match checked {
            Ok(()) => merge_symbols(rules@).no_duplicates(),
            Err(error) => exists|at: int|
                {
                    &&& #[trigger] is_first_repeat(merge_symbols(rules@), at)
                    &&& error@ == (ErrorView::DuplicateMergeSymbol {
                        symbol: merge_symbols(rules@)[at],
                    })
                },
        },
{
    let ghost all = merge_symbols(rules@);
    let mut seen = StringHashSet::new();
    let ghost mut named: Seq<Seq<char>> = Seq::empty();
    let mut e: usize = 0;
    assert(rules@.take(0) =~= Seq::empty());
    assert(named.to_set() =~= Set::<Seq<char>>::empty());
    while e < rules.len()
        invariant
            e <= rules.len(),
            all == merge_symbols(rules@),
            named == merge_symbols(rules@.take(e as int)),
            named.no_duplicates(),
            seen@ == named.to_set(),
        decreases rules.len() - e,
    {
        let master = &rules[e].0;
        let slaves = &rules[e].1;
        let ghost of_rule = rule_symbols(rules@[e as int]);
        let ghost before = named;
        proof {
            lemma_merge_symbols_step(rules@, e as int);
            lemma_merge_symbols_prefix(rules@, e + 1);
            assert(of_rule[0] == master@);
            assert(of_rule.len() == 1 + slaves@.len());
        }
        if !seen.insert(master.clone()) {
            proof {
                let at = named.len() as int;
                assert(all.take(at) =~= named);
                assert(all[at] == (before + of_rule)[at]);
                assert(named.to_set().contains(master@));
                assert(is_first_repeat(all, at));
            }
            return Err(ConfigError::DuplicateMergeSymbol { symbol: master.clone() });
        }
        proof {
            assert(!named.to_set().contains(master@));
            assert(!named.contains(master@));
            lemma_push_fresh(named, master@);
            named = named.push(master@);
            assert(named =~= before + of_rule.take(1));
        }
        let mut k: usize = 0;
        while k < slaves.len()
            invariant
                k <= slaves.len(),
                e < rules.len(),
                *slaves == rules@[e as int].1,
                of_rule == rule_symbols(rules@[e as int]),
                of_rule.len() == 1 + slaves@.len(),
                all == merge_symbols(rules@),
                (before + of_rule).is_prefix_of(all),
                named == before + of_rule.take(1 + k),
                named.no_duplicates(),
                seen@ == named.to_set(),
            decreases slaves.len() - k,
        {
            let slave = &slaves[k];
            let ghost so_far = named;
            proof {
                assert(of_rule[1 + k] == texts(slaves@)[k as int]);
                assert(of_rule[1 + k] == slave@);
            }
            if !seen.insert(slave.clone()) {
                proof {
                    let at = named.len() as int;
                    assert(all.take(at) =~= named);
                    assert(all[at] == (before + of_rule)[at]);
                    assert(named.to_set().contains(slave@));
                    assert(is_first_repeat(all, at));
                }
                return Err(ConfigError::DuplicateMergeSymbol { symbol: slave.clone() });
            }
            proof {
                assert(!named.to_set().contains(slave@));
                assert(!named.contains(slave@));
                lemma_push_fresh(named, slave@);
                named = named.push(slave@);
                assert(named =~= before + of_rule.take(1 + k + 1));
            }
            k += 1;
        }
        proof {
            assert(of_rule.take(1 + k) =~= of_rule);
        }
        e += 1;
    }
    assert(rules@.take(e as int) =~= rules@);
    Ok(())
}

/// Looks for the first portfolio that names a symbol twice in its rules of
/// performance merging.
pub fn check_merge_performance(config: &Config) -> (checked: Result<(), ConfigError>)
    ensures
        match checked {
            Ok(()) => config.merge_symbols_unique(),
            Err(error) => config.finds_repeated_symbol(error@),
        },
{
    let mut i: usize = 0;
    while i < config.portfolios.len()
        invariant
            i <= config.portfolios.len(),
            forall|j: int| 0 <= j < i ==> (#[trigger] config.portfolios@[j]).merge_symbols_unique(),
        decreases config.portfolios.len() - i,
    {
        match check_merge_symbols(&config.portfolios[i].merge_performance) {
            Ok(()) => {},
            Err(error) => {
                proof {
                    let symbols = merge_symbols(config.portfolios@[i as int].merge_performance@);
                    let at = choose|at: int|
                        {
                            &&& #[trigger] is_first_repeat(symbols, at)
                            &&& error@ == (ErrorView::DuplicateMergeSymbol { symbol: symbols[at] })
                        };
                    lemma_repeat_is_duplicate(symbols, at);
                    assert(config.is_first_portfolio_with_repeat(i as int));
                    assert(config.portfolios@[i as int].is_first_repeated_symbol(at));
                }
                return Err(error);
            },
        }
        i += 1;
    }
    Ok(())
}

/// A sequence with an item at a place and before it holds a duplicate.
pub proof fn lemma_repeat_is_duplicate<T>(items: Seq<T>, at: int)
    requires
        0 <= at < items.len(),
        items.take(at).contains(items[at]),
    ensures
        !items.no_duplicates(),
{
    let earlier = choose|j: int| 0 <= j < items.take(at).len() && items.take(at)[j] == items[at];
    assert(items[earlier] == items[at]);
}

/// Holds the values of `config` against each other and names what is found
/// first.
pub fn validate(config: &Config) -> (checked: Result<(), ConfigError>)
    ensures
        checked is Ok <==> config.is_consistent(),
        checked matches Err(error) ==> error@.is_semantic() && config.is_first_violation(error@),
{
    match check_deposit_dates(config) {
        Ok(()) => {},
        Err(error) => {
            proof {
                lemma_violation_excludes_consistency(*config, error@);
            }
            return Err(error);
        },
    }
    match check_contribution_dates(config) {
        Ok(()) => {},
        Err(error) => {
            proof {
                lemma_violation_excludes_consistency(*config, error@);
            }
            return Err(error);
        },
    }
    match check_portfolios(config) {
        Ok(()) => {},
        Err(error) => {
            proof {
                lemma_violation_excludes_consistency(*config, error@);
            }
            return Err(error);
        },
    }
    match check_merge_performance(config) {
        Ok(()) => {},
        Err(error) => {
            proof {
                lemma_violation_excludes_consistency(*config, error@);
            }
            return Err(error);
        },
    }
    Ok(())
}

/// A configuration in which the checks find something is not consistent.
pub proof fn lemma_violation_excludes_consistency(config: Config, error: ErrorView)
    requires
        config.is_first_violation(error),
    ensures
        !config.is_consistent(),
{
    match error {
        ErrorView::InvalidDepositDates { .. } => {
            let i = choose|i: int| #[trigger] config.is_first_unordered_deposit(i);
            assert(!config.deposits@[i].dates_ordered());
        },
        ErrorView::InvalidContributionDate { .. } => {
            let i = choose|i: int| #[trigger] config.is_first_deposit_with_stray(i);
            assert(!config.deposits@[i].contributions_in_term());
        },
        ErrorView::DuplicatePortfolioName { .. } => {
            let names = portfolio_names(config.portfolios@);
            let i = choose|i: int|
                #[trigger] config.is_first_faulty_portfolio(i) && is_first_repeat(names, i);
            lemma_repeat_is_duplicate(names, i);
        },
        ErrorView::UnsupportedCurrency { .. } => {
            let names = portfolio_names(config.portfolios@);
            let i = choose|i: int|
                #[trigger] config.is_first_faulty_portfolio(i) && !is_first_repeat(names, i);
            assert(!config.portfolios@[i].currency_supported());
        },
        ErrorView::DuplicateMergeSymbol { .. } => {
            let i = choose|i: int| #[trigger] config.is_first_portfolio_with_repeat(i);
            assert(!config.portfolios@[i].merge_symbols_unique());
        },
        _ => {},
    }
}

} // verus!
