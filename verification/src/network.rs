use vstd::prelude::*;

use crate::config::Config;
use crate::output::{OutputManager, StdOutputManager};

verus! {

/// Parallel file downloader with configurable output.
pub struct Rget<T: OutputManager> {
    pub config: Config,
    pub output: T,
}

impl Rget<StdOutputManager> {
    pub fn new(config: Config) -> (r: Rget<StdOutputManager>)
        ensures
            r.config == config,
    {
        Rget::with_output_manager(config, StdOutputManager::new())
    }
}

impl<T: OutputManager> Rget<T> {
    pub fn with_output_manager(config: Config, output: T) -> (r: Rget<T>)
        ensures
            r.config == config,
            r.output == output,
    {
        Rget { config, output }
    }
}

} // verus!
