use vstd::prelude::*;

use crate::date::Date;
use crate::text::texts;

verus! {

/// Why a configuration was turned down.
///
/// The first five variants are structural: a single value could not be read
/// as its type. The next five are semantic: values that are fine one by one
/// contradict each other. Then comes what the machine lacks, and last the
/// answer to a lookup.
#[derive(Debug, Clone, PartialEq, Eq)]
pub enum ConfigError {
    /// `value` is not a date.
    InvalidDate { value: String },
    /// `value` is not a percentage weight.
    InvalidWeight { value: String },
    /// `value` is not a tax payment day.
    InvalidTaxPaymentDay { value: String },
    /// `value` is not a strictly positive amount.
    InvalidAmount { value: String },
    /// `value` is none of the `expected` tokens.
    UnknownVariant { value: String, expected: Vec<String> },
    /// The deposit `name` closes before it opens.
    InvalidDepositDates { name: String, open_date: Date, close_date: Date },
    /// The deposit `name` has a contribution at `date`, outside its term.
    InvalidContributionDate { name: String, date: Date },
    /// A second portfolio is called `name`.
    DuplicatePortfolioName { name: String },
    /// A portfolio is kept in `currency`, which is not supported.
    UnsupportedCurrency { currency: String },
    /// A performance merging rule names `symbol` a second time.
    DuplicateMergeSymbol { symbol: String },
    /// The statements of a portfolio lie under the home directory, at
    /// `path`, and no home directory is known.
    HomeDirectoryUnresolved { path: String },
    /// No portfolio is called `name`.
    PortfolioNotDefined { name: String },
}

/// What a [`ConfigError`] says, with every string as the text it holds.
pub ghost enum ErrorView {
    InvalidDate { value: Seq<char> },
    InvalidWeight { value: Seq<char> },
    InvalidTaxPaymentDay { value: Seq<char> },
    InvalidAmount { value: Seq<char> },
    UnknownVariant { value: Seq<char>, expected: Seq<Seq<char>> },
    InvalidDepositDates { name: Seq<char>, open_date: Date, close_date: Date },
    InvalidContributionDate { name: Seq<char>, date: Date },
    DuplicatePortfolioName { name: Seq<char> },
    UnsupportedCurrency { currency: Seq<char> },
    DuplicateMergeSymbol { symbol: Seq<char> },
    HomeDirectoryUnresolved { path: Seq<char> },
    PortfolioNotDefined { name: Seq<char> },
}

impl View for ConfigError {
    type V = ErrorView;

    open spec fn view(&self) -> ErrorView {
        match *self {
            ConfigError::InvalidDate { value } => ErrorView::InvalidDate { value: value@ },
            ConfigError::InvalidWeight { value } => ErrorView::InvalidWeight { value: value@ },
            ConfigError::InvalidTaxPaymentDay { value } => ErrorView::InvalidTaxPaymentDay {
                value: value@,
            },
            ConfigError::InvalidAmount { value } => ErrorView::InvalidAmount { value: value@ },
            ConfigError::UnknownVariant { value, expected } => ErrorView::UnknownVariant {
                value: value@,
                expected: texts(expected@),
            },
            ConfigError::InvalidDepositDates {
                name,
                open_date,
                close_date,
            } => ErrorView::InvalidDepositDates { name: name@, open_date, close_date },
            ConfigError::InvalidContributionDate {
                name,
                date,
            } => ErrorView::InvalidContributionDate { name: name@, date },
            ConfigError::DuplicatePortfolioName { name } => ErrorView::DuplicatePortfolioName {
                name: name@,
            },
            ConfigError::UnsupportedCurrency { currency } => ErrorView::UnsupportedCurrency {
                currency: currency@,
            },
            ConfigError::DuplicateMergeSymbol { symbol } => ErrorView::DuplicateMergeSymbol {
                symbol: symbol@,
            },
            ConfigError::HomeDirectoryUnresolved { path } => ErrorView::HomeDirectoryUnresolved {
                path: path@,
            },
            ConfigError::PortfolioNotDefined { name } => ErrorView::PortfolioNotDefined {
                name: name@,
            },
        }
    }
}

/// The outcome `outcome` with its error, if it is one, taken by its view.
pub open spec fn outcome_view<T>(outcome: Result<T, ConfigError>) -> Result<T, ErrorView> {
    match outcome {
        Ok(value) => Ok(value),
        Err(error) => Err(error@),
    }
}

impl ErrorView {
    /// Whether the error is about a single value that could not be read.
    pub open spec fn is_structural(self) -> bool {
        self is InvalidDate || self is InvalidWeight || self is InvalidTaxPaymentDay
            || self is InvalidAmount || self is UnknownVariant
    }

    /// Whether the error is about values that contradict each other.
    pub open spec fn is_semantic(self) -> bool {
        self is InvalidDepositDates || self is InvalidContributionDate
            || self is DuplicatePortfolioName || self is UnsupportedCurrency
            || self is DuplicateMergeSymbol
    }
}

impl ConfigError {
    /// Whether the error is about a single value that could not be read.
    pub fn is_structural(&self) -> (structural: bool)
        ensures
            structural == self@.is_structural(),
    {
        match self {
            ConfigError::InvalidDate { .. } => true,
            ConfigError::InvalidWeight { .. } => true,
            ConfigError::InvalidTaxPaymentDay { .. } => true,
            ConfigError::InvalidAmount { .. } => true,
            ConfigError::UnknownVariant { .. } => true,
            _ => false,
        }
    }

    /// Whether the error is about values that contradict each other.
    pub fn is_semantic(&self) -> (semantic: bool)
        ensures
            semantic == self@.is_semantic(),
    {
        match self {
            ConfigError::InvalidDepositDates { .. } => true,
            ConfigError::InvalidContributionDate { .. } => true,
            ConfigError::DuplicatePortfolioName { .. } => true,
            ConfigError::UnsupportedCurrency { .. } => true,
            ConfigError::DuplicateMergeSymbol { .. } => true,
            _ => false,
        }
    }
}

} // verus!
