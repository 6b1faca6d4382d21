//! The listening server's configuration holder. Accepting connections and
//! driving sessions is left to the program that embeds this library.
use vstd::prelude::*;

use crate::config::Config;

verus! {

/// A server that listens with a given configuration.
pub struct Server {
    config: Config,
}

impl Server {
    pub fn new(config: Config) -> (r: Self)
        ensures
            r.config() == config,
    {
        Server { config }
    }

    /// The configuration the server was made with.
    pub closed spec fn config(&self) -> Config {
        self.config
    }

    /// The configuration the server was made with.
    pub fn configuration(&self) -> (r: &Config)
        ensures
            *r == self.config(),
    {
        &self.config
    }
}

} // verus!
