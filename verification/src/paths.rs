use vstd::prelude::*;

use crate::config::{Config, PortfolioConfig};
use crate::error::{ConfigError, ErrorView};
use crate::text::chars_of;

verus! {

/// Whether `path` starts with the shorthand for the home directory: a tilde
/// that ends the path or that a slash follows.
pub open spec fn is_home_path(path: Seq<char>) -> bool {
    path.len() > 0 && path[0] == '~' && (path.len() == 1 || path[1] == '/')
}

/// Whether some machine takes the start of `path` for the shorthand for the
/// home directory: a tilde that ends the path or that a slash or a
/// backslash follows.
pub open spec fn may_be_expanded(path: Seq<char>) -> bool {
    path.len() > 0 && path[0] == '~' && (path.len() == 1 || path[1] == '/' || path[1] == '\\')
}

/// Whether `expanded` is `path` as it is, or `path` with something in place
/// of a tilde that may be expanded.
pub open spec fn is_expansion_of(expanded: Seq<char>, path: Seq<char>) -> bool {
    expanded == path || (may_be_expanded(path) && exists|home: Seq<char>|
        expanded == home + path.skip(1))
}

/// Expands `path` with `shellexpand::tilde`.
///
/// Claimed of it: the path comes back as it is, or, where it starts with a
/// tilde that ends it or that a slash or a backslash follows, with some
/// text in place of that tilde. Which text, and whether any, depends on the
/// machine and on the home directory of the user.
#[verifier::external_body]
fn expand_tilde(path: &str) -> (expanded: String)
    ensures
        is_expansion_of(expanded@, path@),
{
    shellexpand::tilde(path).into_owned()
}

/// What the expansion of `path` comes to, once it is known what came back
/// for it: a path under the home directory that came back as it went stands
/// for a home directory that is not known.
pub open spec fn expansion_outcome(path: Seq<char>, expanded: String) -> Result<String, ErrorView> {
    if is_home_path(path) && expanded@ == path {
        Err(ErrorView::HomeDirectoryUnresolved { path })
    } else {
        Ok(expanded)
    }
}

/// Whether `path` starts with the shorthand for the home directory.
pub fn starts_at_home(path: &str) -> (home: bool)
    ensures
        home == is_home_path(path@),
{
    let chars = chars_of(path);
    chars.len() > 0 && chars[0] == '~' && (chars.len() == 1 || chars[1] == '/')
}

/// Takes `expanded` for the expansion of `path`, unless it shows that the
/// home directory is not known.
pub fn statements_from_expansion(path: &str, expanded: String) -> (statements: Result<
    String,
    ConfigError,
>)
    ensures
        match statements {
            Ok(taken) => expansion_outcome(path@, expanded) == Ok::<String, ErrorView>(taken),
            Err(error) => expansion_outcome(path@, expanded) == Err::<String, ErrorView>(error@),
        },
{
    if starts_at_home(path) && crate::text::same_text(expanded.as_str(), path) {
        Err(ConfigError::HomeDirectoryUnresolved { path: path.to_owned() })
    } else {
        Ok(expanded)
    }
}

/// Puts the home directory of the user in place of the tilde that `path`
/// starts with. A path that does not start so comes back as it is.
pub fn expand_home(path: &str) -> (expanded: Result<String, ConfigError>)
    ensures
        match expanded {
            Ok(expanded) => {
                &&& is_expansion_of(expanded@, path@)
                &&& is_home_path(path@) ==> expanded@ != path@
                &&& !may_be_expanded(path@) ==> expanded@ == path@
            },
            Err(error) => {
                &&& is_home_path(path@)
                &&& error@ == (ErrorView::HomeDirectoryUnresolved { path: path@ })
            },
        },
{
    statements_from_expansion(path, expand_tilde(path))
}

impl PortfolioConfig {
    /// Whether this portfolio is `other` with its statements expanded.
    pub open spec fn is_expanded_from(self, other: PortfolioConfig) -> bool {
        &&& self == PortfolioConfig { statements: self.statements, ..other }
        &&& is_expansion_of(self.statements@, other.statements@)
        &&& is_home_path(other.statements@) ==> self.statements@ != other.statements@
        &&& !may_be_expanded(other.statements@) ==> self.statements@ == other.statements@
    }
}

impl Config {
    /// Whether this configuration is `other` with the statements of each
    /// portfolio expanded.
    pub open spec fn is_expanded_from(self, other: Config) -> bool {
        &&& self == Config { portfolios: self.portfolios, ..other }
        &&& self.portfolios@.len() == other.portfolios@.len()
        &&& forall|i: int|
            0 <= i < self.portfolios@.len() ==> (#[trigger] self.portfolios@[i]).is_expanded_from(
                other.portfolios@[i],
            )
    }
}

/// Expands the path to the statements of each portfolio, in their order,
/// and stops at the first that lies under a home directory that is not
/// known.
pub fn expand_statements(config: &mut Config) -> (expanded: Result<(), ConfigError>)
    ensures
        *final(config) == (Config { portfolios: final(config).portfolios, ..*old(config) }),
        final(config).portfolios@.len() == old(config).portfolios@.len(),
        match expanded {
            Ok(()) => final(config).is_expanded_from(*old(config)),
            Err(error) => exists|at: int|
                {
                    &&& 0 <= at < old(config).portfolios@.len()
                    &&& is_home_path(#[trigger] old(config).portfolios@[at].statements@)
                    &&& error@ == (ErrorView::HomeDirectoryUnresolved {
                        path: old(config).portfolios@[at].statements@,
                    })
                    &&& forall|j: int|
                        0 <= j < at ==> (#[trigger] final(config).portfolios@[j]).is_expanded_from(
                            old(config).portfolios@[j],
                        )
                    &&& forall|j: int|
                        at <= j < old(config).portfolios@.len() ==> final(config).portfolios@[j]
                            == old(config).portfolios@[j]
                },
        },
        (forall|i: int|
            0 <= i < old(config).portfolios@.len() ==> !is_home_path(
                (#[trigger] old(config).portfolios@[i]).statements@,
            )) ==> expanded is Ok,
{
    let mut i: usize = 0;
    while i < config.portfolios.len()
        invariant
            i <= config.portfolios.len(),
            *config == (Config { portfolios: config.portfolios, ..*old(config) }),
            config.portfolios@.len() == old(config).portfolios@.len(),
            forall|j: int|
                0 <= j < i ==> (#[trigger] config.portfolios@[j]).is_expanded_from(
                    old(config).portfolios@[j],
                ),
            forall|j: int|
                i <= j < config.portfolios@.len() ==> config.portfolios@[j] == old(
                    config,
                ).portfolios@[j],
        decreases config.portfolios.len() - i,
    {
        match expand_home(config.portfolios[i].statements.as_str()) {
            Ok(statements) => {
                config.portfolios[i].statements = statements;
            },
            Err(error) => {
                assert(is_home_path(old(config).portfolios@[i as int].statements@));
                return Err(error);
            },
        }
        i += 1;
    }
    Ok(())
}

} // verus!
