//! Server options.

use vstd::prelude::*;

verus! {

/// The options the server accepts on its command line.
#[derive(Debug, Clone)]
pub struct Options {
    /// show a quick status and exit
    pub status: bool,
    /// debug mode
    pub debug: bool,
    /// RFB listen port
    pub port: Option<u16>,
    /// allow list (comma separated prefixes)
    pub allow: Option<String>,
    /// one-time allow list
    pub allow_once: Option<String>,
    /// optional password file
    pub passwdfile: Option<String>,
    /// view-only mode
    pub viewonly: bool,
}

impl Default for Options {
    fn default() -> (o: Self)
        ensures
            !o.status,
            !o.debug,
            o.port is None,
            o.allow is None,
            o.allow_once is None,
            o.passwdfile is None,
            !o.viewonly,
    {
        Options {
            status: false,
            debug: false,
            port: None,
            allow: None,
            allow_once: None,
            passwdfile: None,
            viewonly: false,
        }
    }
}

} // verus!
