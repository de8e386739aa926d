//! Configuration sections that hold no numbers, and configuration failures.

use vstd::prelude::*;
use vstd::string::*;

verus! {

/// Broker connection settings.
#[derive(Debug, Clone)]
pub struct BrokerConfig {
    pub name: String,
    pub api_endpoint: String,
    pub data_endpoint: String,
    pub api_key: String,
    pub api_secret: String,
    pub paper: bool,
}

/// Market-data settings.
#[derive(Debug, Clone)]
pub struct DataConfig {
    pub symbols: Vec<String>,
    pub timeframe: String,
}

/// Logging settings: threshold level, main log file and, optionally, the
/// directory of the per-strategy logs.
#[derive(Debug, Clone)]
pub struct LoggingConfig {
    pub level: String,
    pub file: String,
    pub strategy_dir: Option<String>,
}

#[verifier::external_type_specification]
#[verifier::external_body]
pub struct ExIoError(std::io::Error);

/// Why the configuration could not be loaded.
#[derive(Debug)]
pub enum ConfigError {
    FileNotFound(String),
    ParseError(String),
    IoError(std::io::Error),
}

/// The text `std::io::Error` displays. It carries the operating system's
/// description of the failure, so nothing is stated of it.
#[verifier::external_body]
fn io_error_text(e: &std::io::Error) -> String {
    e.to_string()
}

impl ConfigError {
    /// The human-readable text of the error.
    pub fn to_string(&self) -> (s: String)
        ensures
            self matches ConfigError::FileNotFound(path) ==> s@ == "Config file not found: "@ + path@,
            self matches ConfigError::ParseError(msg) ==> s@ == "Failed to parse config: "@ + msg@,
            self is IoError ==> "IO error: "@.is_prefix_of(s@),
    {
        match self {
            ConfigError::FileNotFound(path) => String::from_str("Config file not found: ").concat(path.as_str()),
            ConfigError::ParseError(msg) => String::from_str("Failed to parse config: ").concat(msg.as_str()),
            ConfigError::IoError(e) => {
                let text = io_error_text(e);
                let s = String::from_str("IO error: ").concat(text.as_str());
                assert("IO error: "@.is_prefix_of(s@)) by {
                    assert(s@.subrange(0, "IO error: "@.len() as int) =~= "IO error: "@);
                }
                s
            },
        }
    }
}

impl From<std::io::Error> for ConfigError {
    fn from(err: std::io::Error) -> (r: ConfigError) {
        ConfigError::IoError(err)
    }
}

impl vstd::std_specs::convert::FromSpecImpl<std::io::Error> for ConfigError {
    open spec fn obeys_from_spec() -> bool {
        true
    }

    open spec fn from_spec(err: std::io::Error) -> ConfigError {
        ConfigError::IoError(err)
    }
}

} // verus!
