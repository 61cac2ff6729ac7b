//! The daemon's filesystem layout: where the socket, pid file, log file and
//! service directory live.  The shell reads the home directory from the
//! environment and builds the configuration here.

use vstd::prelude::*;
use vstd::string::*;

verus! {

/// Paths the daemon and its clients agree on, as plain strings.
#[derive(Debug, Clone)]
pub struct DaemonConfig {
    pub socket_path: String,
    pub pid_file: String,
    pub service_dir: String,
    pub log_file: String,
}

impl DaemonConfig {
    /// The layout under `home`: a `.diakonos` directory for the daemon's
    /// files, and `./services` as the default unit directory.
    pub fn with_home(home: &str) -> (r: Self)
        ensures
            r.socket_path@ == home@ + "/.diakonos/daemon.sock"@,
            r.pid_file@ == home@ + "/.diakonos/daemon.pid"@,
            r.log_file@ == home@ + "/.diakonos/daemon.log"@,
            r.service_dir@ == "./services"@,
    {
        let mut socket_path = String::from_str(home);
        socket_path.append("/.diakonos/daemon.sock");
        let mut pid_file = String::from_str(home);
        pid_file.append("/.diakonos/daemon.pid");
        let mut log_file = String::from_str(home);
        log_file.append("/.diakonos/daemon.log");
        let service_dir = String::from_str("./services");
        DaemonConfig { socket_path, pid_file, service_dir, log_file }
    }
}

impl Default for DaemonConfig {
    /// The layout relative to the current directory, for when no home
    /// directory is known.
    fn default() -> (r: Self)
        ensures
            r.socket_path@ == "."@ + "/.diakonos/daemon.sock"@,
            r.pid_file@ == "."@ + "/.diakonos/daemon.pid"@,
            r.log_file@ == "."@ + "/.diakonos/daemon.log"@,
            r.service_dir@ == "./services"@,
    {
        DaemonConfig::with_home(".")
    }
}

} // verus!
