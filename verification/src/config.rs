//! The start-up configuration.
//!
//! A configuration is a TOML document with one recognised key,
//! `central_ip_port`, which holds the port to listen on. The document is
//! parsed by the `toml` crate; what the parsed document must hold, and what
//! is wrong with one that does not, is decided here.

use vstd::prelude::*;
use vstd::string::StringExecFns;

verus! {

/// The relay's configuration: the port it listens on.
#[derive(Debug, Clone, Copy, PartialEq, Eq, Structural)]
pub struct Config {
    pub central_ip_port: u32,
}

/// What a TOML document holds under one key, as far as the configuration
/// cares: an integer with its value, or else only the kind of the value.
#[derive(Debug, Clone, Copy, PartialEq, Eq, Structural)]
pub enum Entry {
    Integer(i64),
    String,
    Float,
    Boolean,
    Datetime,
    Array,
    Table,
}

/// Why there is no configuration.
#[derive(Debug, Clone, Copy, PartialEq, Eq, Structural)]
pub enum ConfigError {
    /// The configuration could not be read at all.
    Unreadable,
    /// The text is not a TOML document.
    Syntax,
    /// The document has no key `central_ip_port`.
    MissingPort,
    /// The value of `central_ip_port` is not an integer but of this kind.
    PortNotInteger(Entry),
    /// The value of `central_ip_port` is this integer, which is no `u32`.
    PortOutOfRange(i64),
}

/// `toml::de::Error`, the error of `toml::from_str`, as an opaque type.
#[verifier::external_type_specification]
#[verifier::external_body]
pub struct ExTomlError(toml::de::Error);

/// `toml::Value`, one value of a parsed document, as an opaque type.
#[verifier::external_type_specification]
#[verifier::external_body]
pub struct ExTomlValue(toml::Value);

/// `toml::map::Map`, the table of a parsed document, as an opaque type.
#[verifier::external_type_specification]
#[verifier::external_body]
#[verifier::reject_recursive_types(K)]
#[verifier::reject_recursive_types(V)]
pub struct ExTomlMap<K, V>(toml::map::Map<K, V>);

/// The top-level keys of a parsed document, each with what it holds.
pub uninterp spec fn table_entries(table: toml::map::Map<String, toml::Value>) -> Map<
    Seq<char>,
    Entry,
>;

/// What `toml` makes of a text: nothing if the text is not a TOML document,
/// else the document's top-level keys, each with what it holds.
pub uninterp spec fn document_entries(text: Seq<char>) -> Option<Map<Seq<char>, Entry>>;

/// Calls `toml::from_str` to parse `text` into a table.
///
/// Trusted: parsing depends on the text alone, so that the outcome is the one
/// that `document_entries` names: failure where it is `None`, else a table
/// with those entries.
#[verifier::external_body]
fn parse_table(text: &str) -> (r: Result<toml::map::Map<String, toml::Value>, toml::de::Error>)
    ensures
        match r {
            Ok(table) => document_entries(text@) == Some(table_entries(table)),
            Err(_) => document_entries(text@) is None,
        },
{
    toml::from_str::<toml::map::Map<String, toml::Value>>(text)
}

/// Calls `toml::map::Map::get` to look `key` up in a parsed table, and tells
/// the variants of the `toml::Value` found apart.
///
/// Trusted: the result is the entry that `table_entries` gives for the key,
/// and `None` where the table has no such key.
#[verifier::external_body]
fn table_entry(table: &toml::map::Map<String, toml::Value>, key: &str) -> (entry: Option<Entry>)
    ensures
        entry == (if table_entries(*table).contains_key(key@) {
            Some(table_entries(*table)[key@])
        } else {
            None
        }),
{
    match table.get(key) {
        None => None,
        Some(toml::Value::Integer(i)) => Some(Entry::Integer(*i)),
        Some(toml::Value::String(_)) => Some(Entry::String),
        Some(toml::Value::Float(_)) => Some(Entry::Float),
        Some(toml::Value::Boolean(_)) => Some(Entry::Boolean),
        Some(toml::Value::Datetime(_)) => Some(Entry::Datetime),
        Some(toml::Value::Array(_)) => Some(Entry::Array),
        Some(toml::Value::Table(_)) => Some(Entry::Table),
    }
}

/// The key under which the port stands.
pub open spec fn port_key() -> Seq<char> {
    "central_ip_port"@
}

/// The configuration that an entry for the port gives: the entry must be
/// there, be an integer, and fit a `u32`.
pub open spec fn config_of_entry(entry: Option<Entry>) -> Result<Config, ConfigError> {
    match entry {
        None => Err(ConfigError::MissingPort),
        Some(Entry::Integer(port)) => if 0 <= port <= u32::MAX {
            Ok(Config { central_ip_port: port as u32 })
        } else {
            Err(ConfigError::PortOutOfRange(port))
        },
        Some(other) => Err(ConfigError::PortNotInteger(other)),
    }
}

/// The configuration that a parsed document gives. Keys other than the
/// port's are ignored.
pub open spec fn config_of_document(document: Option<Map<Seq<char>, Entry>>) -> Result<
    Config,
    ConfigError,
> {
    match document {
        None => Err(ConfigError::Syntax),
        Some(entries) => config_of_entry(
            if entries.contains_key(port_key()) {
                Some(entries[port_key()])
            } else {
                None
            },
        ),
    }
}

impl ConfigError {
    /// What the error says, in words.
    pub open spec fn message_of(self) -> Seq<char> {
        match self {
            ConfigError::Unreadable => "cannot read the configuration file"@,
            ConfigError::Syntax => "the configuration is not valid TOML"@,
            ConfigError::MissingPort => "missing field `central_ip_port`"@,
            ConfigError::PortNotInteger(_) =>
                "invalid type for `central_ip_port`: expected an integer"@,
            ConfigError::PortOutOfRange(_) =>
                "invalid value for `central_ip_port`: expected an unsigned 32-bit integer"@,
        }
    }

    /// What the error says, in words.
    pub fn message(&self) -> (text: String)
        ensures
            text@ == self.message_of(),
    {
        match self {
            ConfigError::Unreadable => String::from_str("cannot read the configuration file"),
            ConfigError::Syntax => String::from_str("the configuration is not valid TOML"),
            ConfigError::MissingPort => String::from_str("missing field `central_ip_port`"),
            ConfigError::PortNotInteger(_) => String::from_str(
                "invalid type for `central_ip_port`: expected an integer",
            ),
            ConfigError::PortOutOfRange(_) => String::from_str(
                "invalid value for `central_ip_port`: expected an unsigned 32-bit integer",
            ),
        }
    }
}

impl Config {
    /// The configuration that the document's entry for the port gives, or
    /// what is wrong with that entry.
    pub fn from_entry(entry: Option<Entry>) -> (r: Result<Config, ConfigError>)
        ensures
            r == config_of_entry(entry),
    {
        match entry {
            None => Err(ConfigError::MissingPort),
            Some(Entry::Integer(port)) => {
                if 0 <= port && port <= 0xffff_ffff {
                    Ok(Config { central_ip_port: port as u32 })
                } else {
                    Err(ConfigError::PortOutOfRange(port))
                }
            },
            Some(other) => Err(ConfigError::PortNotInteger(other)),
        }
    }

    /// The address to listen on: every local interface, at the configured
    /// port.
    pub fn bind_address(&self) -> (address: String)
        ensures
            address@ == bind_address_of(self.central_ip_port),
    {
        let mut address = String::from_str("0.0.0.0:");
        push_decimal(&mut address, self.central_ip_port);
        address
    }
}

/// Reads a configuration from the text of a TOML document. There is no
/// default: a text that is no document, or a document without a proper port,
/// gives an error and no configuration.
pub fn load_config(text: &str) -> (r: Result<Config, ConfigError>)
    ensures
        r == config_of_document(document_entries(text@)),
{
    match parse_table(text) {
        Err(_) => Err(ConfigError::Syntax),
        Ok(table) => Config::from_entry(table_entry(&table, "central_ip_port")),
    }
}

/// The character that writes the digit `d`.
pub open spec fn digit(d: nat) -> char {
    if d == 0 {
        '0'
    } else if d == 1 {
        '1'
    } else if d == 2 {
        '2'
    } else if d == 3 {
        '3'
    } else if d == 4 {
        '4'
    } else if d == 5 {
        '5'
    } else if d == 6 {
        '6'
    } else if d == 7 {
        '7'
    } else if d == 8 {
        '8'
    } else {
        '9'
    }
}

/// The number `n` written in decimal, without leading zeros.
pub open spec fn decimal(n: nat) -> Seq<char>
    decreases n,
{
    if n < 10 {
        seq![digit(n)]
    } else {
        decimal(n / 10).push(digit(n % 10))
    }
}

/// The address to listen on for a port: `0.0.0.0`, a colon, and the port in
/// decimal.
pub open spec fn bind_address_of(port: u32) -> Seq<char> {
    "0.0.0.0:"@ + decimal(port as nat)
}

fn digit_str(d: u32) -> (s: &'static str)
    requires
        d < 10,
    ensures
        s@ == seq![digit(d as nat)],
{
    proof {
        reveal_strlit("0");
        reveal_strlit("1");
        reveal_strlit("2");
        reveal_strlit("3");
        reveal_strlit("4");
        reveal_strlit("5");
        reveal_strlit("6");
        reveal_strlit("7");
        reveal_strlit("8");
        reveal_strlit("9");
    }
    let s = if d == 0 {
        "0"
    } else if d == 1 {
        "1"
    } else if d == 2 {
        "2"
    } else if d == 3 {
        "3"
    } else if d == 4 {
        "4"
    } else if d == 5 {
        "5"
    } else if d == 6 {
        "6"
    } else if d == 7 {
        "7"
    } else if d == 8 {
        "8"
    } else {
        "9"
    };
    s
}

fn push_decimal(out: &mut String, n: u32)
    ensures
        final(out)@ == old(out)@ + decimal(n as nat),
    decreases n,
{
    if n >= 10 {
        push_decimal(out, n / 10);
    }
    out.append(digit_str(n % 10));
}

} // verus!
