//! Client configuration: where the daemon listens, and where the runner's
//! own server and gateway live.
//!
//! Defaults are explicit values a caller can inspect; platform detection,
//! environment lookups and file reading stay at the edge of the program.

use vstd::prelude::*;
use vstd::string::StrSliceExecFns;
use vstd::string::StringExecFns;

use crate::text::str_eq;

verus! {

/// Options for a client of the daemon's control socket: the path of the
/// local daemon executable (used only by the out-of-band launcher), and
/// the daemon's host and port.
#[derive(Debug, Clone)]
pub struct AdbConfig {
    /// Path of the daemon executable, for the caller that launches one.
    pub adb_path: String,
    /// The daemon's control port.
    pub adb_port: i32,
    /// The daemon's host, the loopback address by default.
    pub adb_host: String,
}

impl AdbConfig {
    /// A configuration from explicit values.
    pub fn new(adb_path: &str, adb_host: &str, adb_port: i32) -> (r: AdbConfig)
        ensures
            r.adb_path@ == adb_path@,
            r.adb_host@ == adb_host@,
            r.adb_port == adb_port,
    {
        AdbConfig {
            adb_path: String::from_str(adb_path),
            adb_host: String::from_str(adb_host),
            adb_port,
        }
    }
}

impl Default for AdbConfig {
    /// The conventional control endpoint: loopback, port 5037, with no
    /// executable path — a caller that launches a daemon supplies its
    /// platform's path itself.
    fn default() -> (r: AdbConfig)
        ensures
            r.adb_path@ == Seq::<char>::empty(),
            r.adb_host@ == "127.0.0.1"@,
            r.adb_port == 5037,
    {
        AdbConfig {
            adb_path: String::new(),
            adb_host: String::from_str("127.0.0.1"),
            adb_port: 5037,
        }
    }
}

impl PartialEq for AdbConfig {
    fn eq(&self, o: &AdbConfig) -> (r: bool) {
        str_eq(self.adb_path.as_str(), o.adb_path.as_str()) && str_eq(
            self.adb_host.as_str(),
            o.adb_host.as_str(),
        ) && self.adb_port == o.adb_port
    }
}

impl vstd::std_specs::cmp::PartialEqSpecImpl for AdbConfig {
    open spec fn obeys_eq_spec() -> bool {
        true
    }

    open spec fn eq_spec(&self, o: &AdbConfig) -> bool {
        self.adb_path@ == o.adb_path@ && self.adb_host@ == o.adb_host@ && self.adb_port
            == o.adb_port
    }
}

impl Eq for AdbConfig {

}

/// The runner's whole configuration.
#[derive(Debug)]
pub struct Runner {
    pub server: Server,
    pub gateway: Gateway,
}

/// Where the job gateway is reached.
#[derive(Debug)]
pub struct Gateway {
    pub endpoint: String,
}

/// Where the runner's own server listens.
#[derive(Debug)]
pub struct Server {
    pub ip_addr: String,
    pub port: i32,
}

} // verus!
