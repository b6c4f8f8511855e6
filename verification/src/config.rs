//! The run configuration handed in from the command line.

use vstd::prelude::*;

verus! {

/// What the command line chose: an API key, verbosity, and where the tools
/// service listens. Reading the actual command line happens outside the
/// library; the values land here.
#[derive(Debug)]
pub struct Args {
    pub api_key: Option<String>,
    pub verbose: bool,
    pub tools_addr: Option<String>,
}

impl Args {
    /// A configuration from explicit values.
    pub fn new(api_key: Option<String>, verbose: bool, tools_addr: Option<String>) -> (r: Args)
        ensures
            r.api_key == api_key,
            r.verbose == verbose,
            r.tools_addr == tools_addr,
    {
        Args { api_key, verbose, tools_addr }
    }
}

} // verus!
