//! The settings of the server, from the settings file and the command
//! line.

use vstd::prelude::*;
use crate::html::attr::text_of;

verus! {

/// What the command line gives.
#[derive(Debug)]
pub struct Cli {
    /// The directory to serve.
    pub path: Option<String>,
    /// The port to serve on.
    pub port: Option<u16>,
    /// Whether to log requests.
    pub log: Option<bool>,
}

/// The settings of the server.
#[derive(Debug)]
pub struct CliConfig {
    /// The directory to serve.
    pub root: Option<String>,
    /// The port to serve on.
    pub port: u16,
    /// Whether to log requests.
    pub log: bool,
}

impl CliConfig {
    /// The settings with those of the command line put over them: what
    /// the command line gives counts, what it leaves out stays.
    pub fn override_with_cli(self, cli: Cli) -> (out: CliConfig)
        ensures
            text_of(out.root) == (if cli.path is Some {
                text_of(cli.path)
            } else {
                text_of(self.root)
            }),
            out.port == (if cli.port is Some {
                cli.port.unwrap()
            } else {
                self.port
            }),
            out.log == (if cli.log is Some {
                cli.log.unwrap()
            } else {
                self.log
            }),
    {
        let mut out = self;
        if let Some(root) = cli.path {
            out.root = Some(root);
        }
        if let Some(port) = cli.port {
            out.port = port;
        }
        if let Some(log) = cli.log {
            out.log = log;
        }
        out
    }
}

impl Default for CliConfig {
    /// No directory, port 5000, no logging.
    fn default() -> (out: CliConfig)
        ensures
            out.root is None,
            out.port == 5000,
            !out.log,
    {
        CliConfig { root: None, port: 5000, log: false }
    }
}

} // verus!
