//! Process configuration.

use crate::text::{parse_u64, strip_trailing, trim_trailing, unsigned_value};
use vstd::prelude::*;

verus! {

/// Seconds between cycles where none are configured or the setting does not
/// read as a number.
pub const DEFAULT_CHECK_INTERVAL_SECS: u64 = 10;

/// What the connector is configured with.
#[derive(Debug)]
pub struct Config {
    pub loki_url: String,
    pub netbird_api_url: String,
    pub netbird_api_token: String,
    pub check_interval_secs: u64,
}

/// Why no configuration could be made.
#[derive(Clone, Copy, Debug, PartialEq, Eq, Structural)]
pub enum ConfigError {
    /// No API token for the source was given.
    MissingToken,
}

/// The sink's base URL: the setting, or the local default.
pub open spec fn loki_url_of(setting: Option<String>) -> Seq<char> {
    match setting {
        Some(s) => s@,
        None => "http://loki:3100"@,
    }
}

/// The source's base URL: the setting or the public default, without
/// trailing slashes.
pub open spec fn netbird_api_url_of(setting: Option<String>) -> Seq<char> {
    strip_trailing(
        match setting {
            Some(s) => s@,
            None => "https://api.netbird.io"@,
        },
        '/',
    )
}

/// The polling interval in seconds: the setting where it reads as a number,
/// else the default.
pub open spec fn check_interval_of(setting: Option<String>) -> u64 {
    match setting {
        Some(s) => match unsigned_value(s@) {
            Some(n) => n,
            None => DEFAULT_CHECK_INTERVAL_SECS,
        },
        None => DEFAULT_CHECK_INTERVAL_SECS,
    }
}

impl Config {
    /// Builds the configuration from what the environment holds for
    /// `LOKI_URL`, `NETBIRD_API_URL`, `NETBIRD_API_TOKEN` and `CHECK_INTERVAL`,
    /// each absent or present. Only a missing token is an error.
    pub fn from_env(
        loki_url: Option<String>,
        netbird_api_url: Option<String>,
        netbird_api_token: Option<String>,
        check_interval: Option<String>,
    ) -> (r: Result<Config, ConfigError>)
        ensures
            r is Ok <==> netbird_api_token is Some,
            r matches Err(e) ==> e == ConfigError::MissingToken,
            r matches Ok(c) ==> {
                &&& c.loki_url@ == loki_url_of(loki_url)
                &&& c.netbird_api_url@ == netbird_api_url_of(netbird_api_url)
                &&& Some(c.netbird_api_token) == netbird_api_token
                &&& c.check_interval_secs == check_interval_of(check_interval)
            },
    {
        let loki = match loki_url {
            Some(s) => s,
            None => String::from_str("http://loki:3100"),
        };
        let api = match netbird_api_url {
            Some(s) => trim_trailing(s.as_str(), '/'),
            None => trim_trailing("https://api.netbird.io", '/'),
        };
        let token = match netbird_api_token {
            Some(t) => t,
            None => {
                return Err(ConfigError::MissingToken);
            },
        };
        let interval: u64 = match check_interval {
            Some(s) => match parse_u64(s.as_str()) {
                Some(n) => n,
                None => DEFAULT_CHECK_INTERVAL_SECS,
            },
            None => DEFAULT_CHECK_INTERVAL_SECS,
        };
        Ok(
            Config {
                loki_url: loki,
                netbird_api_url: api,
                netbird_api_token: token,
                check_interval_secs: interval,
            },
        )
    }
}

impl ConfigError {
    /// The error in words.
    pub fn message(&self) -> (r: String)
        ensures
            r@ == "NETBIRD_API_TOKEN is required"@,
    {
        String::from_str("NETBIRD_API_TOKEN is required")
    }
}

} // verus!
