//! The configuration of the slave.
use crate::paths::{self, tilde_expanded};
use crate::text;
use vstd::prelude::*;

verus! {

/// Where the master is: found on the network, or given.
#[derive(Debug, Clone)]
pub enum MasterAddr {
    Auto,
    Explicit(String),
}

impl MasterAddr {
    /// The address that a text means.
    pub fn from_text(s: String) -> (addr: MasterAddr)
        ensures
            addr == (if s@ == "auto"@ {
                MasterAddr::Auto
            } else {
                MasterAddr::Explicit(s)
            }),
    {
        if text::same_text(s.as_str(), "auto") {
            MasterAddr::Auto
        } else {
            MasterAddr::Explicit(s)
        }
    }
}

/// How long to wait before connecting again, in milliseconds.
#[derive(Debug, Clone, Copy, PartialEq, Eq, Structural)]
pub struct ReconnectConfig {
    pub interval_ms: u64,
}

/// How long to wait where nothing else is set.
pub fn default_interval_ms() -> (ms: u64)
    ensures
        ms == 500,
{
    500
}

impl Default for ReconnectConfig {
    fn default() -> (config: Self)
        ensures
            config.interval_ms == 500,
    {
        Self { interval_ms: default_interval_ms() }
    }
}

/// The configuration of the slave.
#[derive(Debug, Clone)]
pub struct Config {
    pub master: MasterAddr,
    pub psk_file: String,
    pub reconnect: ReconnectConfig,
}

impl Config {
    /// The path of the file with the shared secret.
    pub fn psk_path(&self, home: Option<&str>) -> (path: String)
        ensures
            path@ == tilde_expanded(
                self.psk_file@,
                match home {
                    Some(home) => home@,
                    None => "/"@,
                },
            ),
    {
        paths::expand_tilde(self.psk_file.as_str(), home)
    }
}

} // verus!
