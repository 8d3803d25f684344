//! Album configuration text, read with `simple_config_parser`: `key = value`
//! lines, later lines taking priority.
use vstd::prelude::*;
use simple_config_parser::{Config, ConfigError};

verus! {

#[verifier::external_type_specification]
#[verifier::external_body]
pub struct ExConfig(simple_config_parser::Config);

#[verifier::external_type_specification]
#[verifier::external_body]
pub struct ExConfigError(simple_config_parser::ConfigError);

/// The key/value entries that `Config::text` reads from a text, in order;
/// `None` where it refuses the text.
pub uninterp spec fn config_parse(text: Seq<char>) -> Option<Seq<(Seq<char>, Seq<char>)>>;

/// The key/value entries a `Config` holds, in order.
pub uninterp spec fn config_entries(c: Config) -> Seq<(Seq<char>, Seq<char>)>;

/// The value of the last entry with the given key.
pub open spec fn config_lookup(entries: Seq<(Seq<char>, Seq<char>)>, key: Seq<char>) -> Option<
    Seq<char>,
>
    decreases entries.len(),
{
    if entries.len() == 0 {
        None
    } else if entries.last().0 == key {
        Some(entries.last().1)
    } else {
        config_lookup(entries.drop_last(), key)
    }
}

/// A key of lower-case ASCII letters and underscores, which lower-casing keeps as it is.
pub open spec fn is_plain_key(key: Seq<char>) -> bool {
    forall|i: int| 0 <= i < key.len() ==> ('a' <= #[trigger] key[i] <= 'z' || key[i] == '_')
}

/// `Config::new().text(text)`: parses configuration text.
#[verifier::external_body]
pub(crate) fn parse_config(text: &str) -> (res: Result<Config, ConfigError>)
    ensures
        match res {
            Ok(c) => config_parse(text@) == Some(config_entries(c)),
            Err(_) => config_parse(text@) is None,
        },
{
    Config::new().text(text)
}

/// `Config::get_str`: the value of the last entry whose key equals the
/// lower-cased `key`, or an error when there is none.  Stated for keys of
/// lower-case ASCII letters and underscores, which lower-casing leaves as
/// they are; what the parse of `Config::text` reads from a text is left to
/// `config_parse`.
#[verifier::external_body]
pub(crate) fn config_get_str(config: &Config, key: &str) -> (res: Result<String, ConfigError>)
    requires
        is_plain_key(key@),
    ensures
        match res {
            Ok(v) => config_lookup(config_entries(*config), key@) == Some(v@),
            Err(_) => config_lookup(config_entries(*config), key@) is None,
        },
{
    config.get_str(key)
}

} // verus!
