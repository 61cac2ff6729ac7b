//! The client's handle on the daemon: the configuration it connects with.
//! The socket I/O itself lives in the unverified shell.

use vstd::prelude::*;
use crate::daemon::DaemonConfig;

verus! {

/// A client of the supervisor daemon.
#[derive(Debug, Clone)]
pub struct Client {
    pub config: DaemonConfig,
}

impl Client {
    /// A client that will talk to the daemon `config` describes.
    pub fn new(config: DaemonConfig) -> (r: Self)
        ensures
            r.config == config,
    {
        Client { config }
    }
}

} // verus!
