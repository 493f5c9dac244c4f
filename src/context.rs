//! Options of a build.

use vstd::prelude::*;

verus! {

/// How a build runs: `server` for the development server's passes (error
/// pages in the browser, live-reload stubs), `verbose` for more logging.
pub struct Options {
    pub server: bool,
    pub verbose: bool,
}

impl Default for Options {
    fn default() -> (r: Options)
        ensures
            !r.server && !r.verbose,
    {
        Options { server: false, verbose: false }
    }
}

} // verus!
