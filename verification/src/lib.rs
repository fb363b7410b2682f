//! The configuration of an investment tracker: deposits, portfolios held at
//! brokers and the rules by which they are analysed.
//!
//! The values of a configuration are read from text one by one and then held
//! against each other; what comes out of [`config::load_config`] is
//! consistent.

pub mod cash_flows;
pub mod config;
pub mod date;
pub mod decimal;
pub mod error;
pub mod laws;
pub mod localities;
pub mod paths;
pub mod taxes;
pub mod text;
pub mod validation;
