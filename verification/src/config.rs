//! Runtime configuration: the listen port and the endpoint URLs to probe.
//!
//! Reading and writing the configuration file is I/O and lives outside the
//! library; this module only states what the configuration is and which
//! configuration the service runs with when no stored one could be read.

use vstd::prelude::*;

verus! {

/// The service's configuration: the HTTP listen port and the ordered list of
/// endpoint URLs that a discovery race probes.
pub struct Config {
    pub port: u16,
    pub urls: Vec<String>,
}

/// The port the service listens on when the configuration does not name one.
pub fn default_port() -> (p: u16)
    ensures
        p == 3443,
{
    3443
}

impl Config {
    /// Whether this configuration is the built-in default: port 3443 and the
    /// two well-known IP-echo endpoints.
    pub open spec fn is_default(self) -> bool {
        &&& self.port == 3443
        &&& self.urls@.len() == 2
        &&& self.urls@[0]@ == "https://6.ipw.cn"@
        &&& self.urls@[1]@ == "http://checkipv6.dyndns.com/"@
    }

    /// Picks the configuration the service runs with, given the outcome of an
    /// attempt to load a stored one: the loaded configuration when the attempt
    /// succeeded, the built-in default otherwise.
    pub fn load_or_create(loaded: Option<Config>) -> (c: Config)
        ensures
            loaded is Some ==> c == loaded->0,
            loaded is None ==> c.is_default(),
    {
        match loaded {
            Some(l) => l,
            None => Config::default(),
        }
    }
}

impl Default for Config {
    /// The built-in default configuration.
    fn default() -> (c: Config)
        ensures
            c.is_default(),
    {
        let mut urls: Vec<String> = Vec::new();
        urls.push("https://6.ipw.cn".to_owned());
        urls.push("http://checkipv6.dyndns.com/".to_owned());
        Config { port: 3443, urls }
    }
}

} // verus!
