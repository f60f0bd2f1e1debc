//! The options of the command line.

use vstd::prelude::*;

verus! {

/// What the command line can set.
pub struct Opts {
    /// The path of the configuration file.
    pub config: String,
    /// More detailed output.
    pub verbose: bool,
    /// The address and port to bind to without TLS.
    pub addr: String,
    /// The address and port to bind to when TLS is used.
    pub addrs: String,
    /// Bind with TLS only.
    pub secure: bool,
}

impl Default for Opts {
    /// The options of a command line that sets none.
    fn default() -> (opts: Self)
        ensures
            opts.config@ == "/etc/staticserve.yaml"@,
            !opts.verbose,
            opts.addr@ == "0.0.0.0:8080"@,
            opts.addrs@ == "0.0.0.0:8443"@,
            !opts.secure,
    {
        Opts {
            config: "/etc/staticserve.yaml".to_owned(),
            verbose: false,
            addr: "0.0.0.0:8080".to_owned(),
            addrs: "0.0.0.0:8443".to_owned(),
            secure: false,
        }
    }
}

} // verus!
