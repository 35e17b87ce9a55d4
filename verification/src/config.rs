use vstd::prelude::*;

verus! {

/// Options for a whole download run, as the caller supplies them.
#[derive(Clone)]
pub struct Config {
    pub username: Option<String>,
    pub password: Option<String>,
    pub insecure: bool,

    pub parallel: u64,
}

impl Default for Config {
    fn default() -> (r: Config)
        ensures
            r.username is None,
            r.password is None,
            !r.insecure,
            r.parallel == 0,
    {
        Config { username: None, password: None, insecure: false, parallel: 0 }
    }
}

/// The persisted download descriptor: the URL and the segment count of an
/// interrupted run, with the path its own file lives at.
#[derive(Clone, Debug, PartialEq)]
pub struct DownloadConfig {
    pub path: String,

    pub parallel: u64,

    pub url: String,
}

impl DownloadConfig {
    /// The descriptor invariant: a download always has at least one segment.
    pub open spec fn wf(&self) -> bool {
        self.parallel >= 1
    }
}

/// The segment count assumed when a stored descriptor does not name one.
pub fn parallel_default() -> (r: u64)
    ensures
        r == 1,
{
    1
}

} // verus!
