use vstd::prelude::*;

use crate::config::Config;
use crate::error::ErrorView;
use crate::text::texts;
use crate::validation::{
    is_first_repeat, lemma_merge_symbols_prefix, lemma_merge_symbols_step,
    lemma_repeat_is_duplicate, lemma_violation_excludes_consistency, merge_symbols,
    portfolio_names, rule_symbols,
};

verus! {

/// The place of the first deposit that closes before it opens, where the
/// deposit at `at` does.
pub proof fn lemma_first_unordered_deposit(config: Config, at: int) -> (first: int)
    requires
        0 <= at < config.deposits@.len(),
        !config.deposits@[at].dates_ordered(),
    ensures
        first <= at,
        config.is_first_unordered_deposit(first),
    decreases at,
{
    if exists|j: int| 0 <= j < at && !(#[trigger] config.deposits@[j]).dates_ordered() {
        let j = choose|j: int| 0 <= j < at && !(#[trigger] config.deposits@[j]).dates_ordered();
        lemma_first_unordered_deposit(config, j)
    } else {
        at
    }
}

/// A configuration with a deposit that closes before it opens is turned
/// down: it is not consistent, and what the checks find first is the first
/// such deposit, named with its two dates.
pub proof fn lemma_unordered_deposit_is_rejected(config: Config, at: int)
    requires
        0 <= at < config.deposits@.len(),
        config.deposits@[at].close_date.before(config.deposits@[at].open_date),
    ensures
        !config.is_consistent(),
        exists|first: int|
            {
                &&& #[trigger] config.is_first_unordered_deposit(first)
                &&& config.is_first_violation(
                    ErrorView::InvalidDepositDates {
                        name: config.deposits@[first].name@,
                        open_date: config.deposits@[first].open_date,
                        close_date: config.deposits@[first].close_date,
                    },
                )
            },
        forall|error: ErrorView| #[trigger]
            config.is_first_violation(error) ==> {
                &&& error is InvalidDepositDates
                &&& error->close_date.before(error->open_date)
            },
{
    let first = lemma_first_unordered_deposit(config, at);
    assert(config.is_first_unordered_deposit(first));
    assert(!config.deposit_dates_ordered());
    assert forall|error: ErrorView| #[trigger] config.is_first_violation(error) implies {
        &&& error is InvalidDepositDates
        &&& error->close_date.before(error->open_date)
    } by {
        if error is InvalidDepositDates {
            let i = choose|i: int|
                {
                    &&& #[trigger] config.is_first_unordered_deposit(i)
                    &&& error->InvalidDepositDates_name == config.deposits@[i].name@
                    &&& error->open_date == config.deposits@[i].open_date
                    &&& error->close_date == config.deposits@[i].close_date
                };
            assert(!config.deposits@[i].dates_ordered());
        }
    }
}

/// A configuration with a contribution that is made before its deposit
/// opens or after it closes is turned down; where no deposit closes before
/// it opens, what the checks find first is a contribution outside its term.
pub proof fn lemma_stray_contribution_is_rejected(config: Config, at: int, which: int)
    requires
        0 <= at < config.deposits@.len(),
        0 <= which < config.deposits@[at].contributions@.len(),
        ({
            let deposit = config.deposits@[at];
            let date = deposit.contributions@[which].0;
            date.before(deposit.open_date) || deposit.close_date.before(date)
        }),
    ensures
        !config.is_consistent(),
        config.deposit_dates_ordered() ==> forall|error: ErrorView| #[trigger]
            config.is_first_violation(error) ==> error is InvalidContributionDate,
{
    assert(!config.deposits@[at].contribution_in_term(which));
    assert(!config.deposits@[at].contributions_in_term());
    assert(!config.contributions_in_term());
    if config.deposit_dates_ordered() {
        assert forall|error: ErrorView| #[trigger]
            config.is_first_violation(error) implies error is InvalidContributionDate by {
            if error is InvalidDepositDates {
                let i = choose|i: int| #[trigger] config.is_first_unordered_deposit(i);
                assert(!config.deposits@[i].dates_ordered());
            }
        }
    }
}

/// A configuration with two portfolios of one name is turned down, whatever
/// else the two hold.
pub proof fn lemma_shared_name_is_rejected(config: Config, first: int, second: int)
    requires
        0 <= first < second < config.portfolios@.len(),
        config.portfolios@[first].name@ == config.portfolios@[second].name@,
    ensures
        !config.is_consistent(),
{
    let names = portfolio_names(config.portfolios@);
    assert(names[first] == names[second]);
}

/// Where the deposits are in order and `at` is the first portfolio with the
/// name of an earlier one, and the portfolios before it are kept in
/// supported currencies, what the checks find is that name, twice.
pub proof fn lemma_shared_name_is_named(config: Config, at: int)
    requires
        config.deposit_dates_ordered(),
        config.contributions_in_term(),
        is_first_repeat(portfolio_names(config.portfolios@), at),
        forall|j: int| 0 <= j < at ==> (#[trigger] config.portfolios@[j]).currency_supported(),
    ensures
        config.is_first_violation(
            ErrorView::DuplicatePortfolioName { name: config.portfolios@[at].name@ },
        ),
        forall|error: ErrorView| #[trigger]
            config.is_first_violation(error) ==> error == (ErrorView::DuplicatePortfolioName {
                name: config.portfolios@[at].name@,
            }),
{
    let names = portfolio_names(config.portfolios@);
    assert(config.is_first_faulty_portfolio(at));
    lemma_repeat_is_duplicate(names, at);
    assert forall|error: ErrorView| #[trigger] config.is_first_violation(error) implies error == (
    ErrorView::DuplicatePortfolioName { name: config.portfolios@[at].name@ }) by {
        match error {
            ErrorView::InvalidDepositDates { .. } => {
                let i = choose|i: int| #[trigger] config.is_first_unordered_deposit(i);
                assert(!config.deposits@[i].dates_ordered());
            },
            ErrorView::InvalidContributionDate { .. } => {
                let i = choose|i: int| #[trigger] config.is_first_deposit_with_stray(i);
                assert(!config.deposits@[i].contributions_in_term());
            },
            ErrorView::DuplicatePortfolioName { name } => {
                let i = choose|i: int|
                    {
                        &&& #[trigger] config.is_first_faulty_portfolio(i)
                        &&& is_first_repeat(names, i)
                        &&& name == config.portfolios@[i].name@
                    };
                lemma_first_faulty_portfolio_is_unique(config, i, at);
            },
            ErrorView::UnsupportedCurrency { currency } => {
                let i = choose|i: int|
                    {
                        &&& #[trigger] config.is_first_faulty_portfolio(i)
                        &&& !is_first_repeat(names, i)
                    };
                lemma_first_faulty_portfolio_is_unique(config, i, at);
            },
            _ => {},
        }
    }
}

/// One portfolio at most is the first that repeats a name or is kept in an
/// unsupported currency.
pub proof fn lemma_first_faulty_portfolio_is_unique(config: Config, one: int, other: int)
    requires
        config.is_first_faulty_portfolio(one),
        config.is_first_faulty_portfolio(other),
    ensures
        one == other,
{
    let names = portfolio_names(config.portfolios@);
    if one < other {
        lemma_faulty_portfolio_shows_before(config, one, other);
    } else if other < one {
        lemma_faulty_portfolio_shows_before(config, other, one);
    }
}

/// Past a portfolio that repeats a name or is kept in an unsupported
/// currency, the names repeat or a currency is unsupported.
proof fn lemma_faulty_portfolio_shows_before(config: Config, faulty: int, later: int)
    requires
        config.is_first_faulty_portfolio(faulty),
        faulty < later <= config.portfolios@.len(),
    ensures
        !portfolio_names(config.portfolios@).take(later).no_duplicates() || !config.portfolios@[faulty].currency_supported(),
{
    let names = portfolio_names(config.portfolios@);
    if names.take(faulty).contains(names[faulty]) {
        let j = choose|j: int| 0 <= j < names.take(faulty).len() && names.take(faulty)[j] == names[faulty];
        assert(names.take(later)[j] == names.take(later)[faulty]);
    }
}

/// Where the symbols of the rule at `rule` stand among the symbols of all
/// rules: behind those of the rules before it.
pub proof fn lemma_rule_symbol_place(rules: Seq<(String, Vec<String>)>, rule: int, which: int)
    requires
        0 <= rule < rules.len(),
        0 <= which < rule_symbols(rules[rule]).len(),
    ensures
        ({
            let place = merge_symbols(rules.take(rule)).len() + which;
            &&& place < merge_symbols(rules).len()
            &&& merge_symbols(rules)[place] == rule_symbols(rules[rule])[which]
        }),
{
    lemma_merge_symbols_step(rules, rule);
    lemma_merge_symbols_prefix(rules, rule + 1);
    let upto = merge_symbols(rules.take(rule + 1));
    let place = merge_symbols(rules.take(rule)).len() + which;
    assert(upto[place] == rule_symbols(rules[rule])[which]);
    assert(merge_symbols(rules).subrange(0, upto.len() as int)[place] == upto[place]);
}

/// The symbols of a later rule stand behind all symbols of an earlier one.
pub proof fn lemma_rule_symbols_follow(rules: Seq<(String, Vec<String>)>, earlier: int, later: int)
    requires
        0 <= earlier < later <= rules.len(),
    ensures
        merge_symbols(rules.take(earlier)).len() + rule_symbols(rules[earlier]).len()
            <= merge_symbols(rules.take(later)).len(),
    decreases later - earlier,
{
    if later == earlier + 1 {
        lemma_merge_symbols_step(rules, earlier);
    } else {
        lemma_rule_symbols_follow(rules, earlier, later - 1);
        lemma_merge_symbols_step(rules, later - 1);
    }
}

/// Rules of performance merging in which the master symbol of one rule is
/// merged into the master symbol of another name that symbol twice.
pub proof fn lemma_master_as_slave_repeats(
    rules: Seq<(String, Vec<String>)>,
    master: int,
    other: int,
    slave: int,
)
    requires
        0 <= master < rules.len(),
        0 <= other < rules.len(),
        master != other,
        0 <= slave < rules[other].1@.len(),
        rules[master].0@ == rules[other].1@[slave]@,
    ensures
        !merge_symbols(rules).no_duplicates(),
{
    let symbols = merge_symbols(rules);
    let as_master = merge_symbols(rules.take(master)).len() as int;
    let as_slave = merge_symbols(rules.take(other)).len() + 1 + slave;
    lemma_rule_symbol_place(rules, master, 0);
    lemma_rule_symbol_place(rules, other, 1 + slave);
    assert(rule_symbols(rules[other])[1 + slave] == texts(rules[other].1@)[slave]);
    assert(symbols[as_master] == symbols[as_slave]);
    if master < other {
        lemma_rule_symbols_follow(rules, master, other);
    } else {
        lemma_rule_symbols_follow(rules, other, master);
    }
    assert(as_master != as_slave);
}

/// A configuration is turned down where, in one portfolio, a symbol is
/// both the master symbol of one rule of performance merging and merged
/// into the master symbol of another.
pub proof fn lemma_master_as_slave_is_rejected(
    config: Config,
    at: int,
    master: int,
    other: int,
    slave: int,
)
    requires
        0 <= at < config.portfolios@.len(),
        ({
            let rules = config.portfolios@[at].merge_performance@;
            &&& 0 <= master < rules.len()
            &&& 0 <= other < rules.len()
            &&& master != other
            &&& 0 <= slave < rules[other].1@.len()
            &&& rules[master].0@ == rules[other].1@[slave]@
        }),
    ensures
        !config.portfolios@[at].merge_symbols_unique(),
        !config.is_consistent(),
{
    lemma_master_as_slave_repeats(config.portfolios@[at].merge_performance@, master, other, slave);
}

/// One place at most is the first at which a sequence repeats an item.
pub proof fn lemma_first_repeat_is_unique<T>(items: Seq<T>, one: int, other: int)
    requires
        is_first_repeat(items, one),
        is_first_repeat(items, other),
    ensures
        one == other,
{
    if one < other {
        let j = choose|j: int| 0 <= j < items.take(one).len() && items.take(one)[j] == items[one];
        assert(items.take(other)[j] == items.take(other)[one]);
    } else if other < one {
        let j = choose|j: int|
            0 <= j < items.take(other).len() && items.take(other)[j] == items[other];
        assert(items.take(one)[j] == items.take(one)[other]);
    }
}

/// Which of the checks fails is told by the kind of what is found first.
pub proof fn lemma_violation_tells_the_check(config: Config, error: ErrorView)
    requires
        config.is_first_violation(error),
    ensures
        error is InvalidDepositDates <==> !config.deposit_dates_ordered(),
        error is InvalidContributionDate <==> config.deposit_dates_ordered()
            && !config.contributions_in_term(),
        error is DuplicatePortfolioName || error is UnsupportedCurrency
            <==> config.deposit_dates_ordered() && config.contributions_in_term() && !(
        config.portfolio_names_unique() && config.currencies_supported()),
        error is DuplicateMergeSymbol <==> config.deposit_dates_ordered()
            && config.contributions_in_term() && config.portfolio_names_unique()
            && config.currencies_supported(),
{
    lemma_violation_excludes_consistency(config, error);
    let names = portfolio_names(config.portfolios@);
    match error {
        ErrorView::InvalidDepositDates { .. } => {
            let i = choose|i: int| #[trigger] config.is_first_unordered_deposit(i);
            assert(!config.deposits@[i].dates_ordered());
        },
        ErrorView::InvalidContributionDate { .. } => {
            let i = choose|i: int| #[trigger] config.is_first_deposit_with_stray(i);
            assert(!config.deposits@[i].contributions_in_term());
        },
        ErrorView::DuplicatePortfolioName { .. } => {
            let i = choose|i: int|
                #[trigger] config.is_first_faulty_portfolio(i) && is_first_repeat(names, i);
            lemma_repeat_is_duplicate(names, i);
        },
        ErrorView::UnsupportedCurrency { .. } => {
            let i = choose|i: int|
                #[trigger] config.is_first_faulty_portfolio(i) && !is_first_repeat(names, i);
            assert(!config.portfolios@[i].currency_supported());
        },
        _ => {},
    }
}

/// The checks find one thing at most: what is found first is told by the
/// configuration alone.
pub proof fn lemma_first_violation_is_unique(config: Config, one: ErrorView, other: ErrorView)
    requires
        config.is_first_violation(one),
        config.is_first_violation(other),
    ensures
        one == other,
{
    lemma_violation_tells_the_check(config, one);
    lemma_violation_tells_the_check(config, other);
    let names = portfolio_names(config.portfolios@);
    match one {
        ErrorView::InvalidDepositDates { name, open_date, close_date } => {
            let i = choose|i: int|
                {
                    &&& #[trigger] config.is_first_unordered_deposit(i)
                    &&& name == config.deposits@[i].name@
                    &&& open_date == config.deposits@[i].open_date
                    &&& close_date == config.deposits@[i].close_date
                };
            let j = choose|j: int|
                {
                    &&& #[trigger] config.is_first_unordered_deposit(j)
                    &&& other->InvalidDepositDates_name == config.deposits@[j].name@
                    &&& other->open_date == config.deposits@[j].open_date
                    &&& other->close_date == config.deposits@[j].close_date
                };
            assert(i == j) by {
                if i < j {
                    assert(config.deposits@[i].dates_ordered());
                } else if j < i {
                    assert(config.deposits@[j].dates_ordered());
                }
            }
        },
        ErrorView::InvalidContributionDate { name, date } => {
            let (i, k) = choose|i: int, k: int|
                {
                    &&& #[trigger] config.is_first_deposit_with_stray(i)
                    &&& #[trigger] config.deposits@[i].is_first_stray_contribution(k)
                    &&& name == config.deposits@[i].name@
                    &&& date == config.deposits@[i].contributions@[k].0
                };
            let (j, l) = choose|j: int, l: int|
                {
                    &&& #[trigger] config.is_first_deposit_with_stray(j)
                    &&& #[trigger] config.deposits@[j].is_first_stray_contribution(l)
                    &&& other->InvalidContributionDate_name == config.deposits@[j].name@
                    &&& other->date == config.deposits@[j].contributions@[l].0
                };
            assert(i == j) by {
                if i < j {
                    assert(config.deposits@[i].contributions_in_term());
                } else if j < i {
                    assert(config.deposits@[j].contributions_in_term());
                }
            }
            assert(k == l) by {
                if k < l {
                    assert(config.deposits@[i].contribution_in_term(k));
                } else if l < k {
                    assert(config.deposits@[i].contribution_in_term(l));
                }
            }
        },
        ErrorView::DuplicatePortfolioName { name } => {
            let i = choose|i: int|
                {
                    &&& #[trigger] config.is_first_faulty_portfolio(i)
                    &&& is_first_repeat(names, i)
                    &&& name == config.portfolios@[i].name@
                };
            if other is DuplicatePortfolioName {
                let j = choose|j: int|
                    {
                        &&& #[trigger] config.is_first_faulty_portfolio(j)
                        &&& is_first_repeat(names, j)
                        &&& other->DuplicatePortfolioName_name == config.portfolios@[j].name@
                    };
                lemma_first_faulty_portfolio_is_unique(config, i, j);
            } else {
                let j = choose|j: int|
                    {
                        &&& #[trigger] config.is_first_faulty_portfolio(j)
                        &&& !is_first_repeat(names, j)
                    };
                lemma_first_faulty_portfolio_is_unique(config, i, j);
            }
        },
        ErrorView::UnsupportedCurrency { currency } => {
            let i = choose|i: int|
                {
                    &&& #[trigger] config.is_first_faulty_portfolio(i)
                    &&& !is_first_repeat(names, i)
                    &&& config.portfolios@[i].currency matches Some(named)
                    &&& currency == named@
                };
            if other is UnsupportedCurrency {
                let j = choose|j: int|
                    {
                        &&& #[trigger] config.is_first_faulty_portfolio(j)
                        &&& !is_first_repeat(names, j)
                        &&& config.portfolios@[j].currency matches Some(named)
                        &&& other->currency == named@
                    };
                lemma_first_faulty_portfolio_is_unique(config, i, j);
            } else {
                let j = choose|j: int|
                    {
                        &&& #[trigger] config.is_first_faulty_portfolio(j)
                        &&& is_first_repeat(names, j)
                    };
                lemma_first_faulty_portfolio_is_unique(config, i, j);
            }
        },
        ErrorView::DuplicateMergeSymbol { symbol } => {
            let (i, k) = choose|i: int, k: int|
                {
                    &&& #[trigger] config.is_first_portfolio_with_repeat(i)
                    &&& #[trigger] config.portfolios@[i].is_first_repeated_symbol(k)
                    &&& symbol == merge_symbols(config.portfolios@[i].merge_performance@)[k]
                };
            let (j, l) = choose|j: int, l: int|
                {
                    &&& #[trigger] config.is_first_portfolio_with_repeat(j)
                    &&& #[trigger] config.portfolios@[j].is_first_repeated_symbol(l)
                    &&& other->symbol == merge_symbols(config.portfolios@[j].merge_performance@)[l]
                };
            assert(i == j) by {
                if i < j {
                    assert(config.portfolios@[i].merge_symbols_unique());
                } else if j < i {
                    assert(config.portfolios@[j].merge_symbols_unique());
                }
            }
            lemma_first_repeat_is_unique(
                merge_symbols(config.portfolios@[i].merge_performance@),
                k,
                l,
            );
        },
        _ => {},
    }
}

} // verus!
