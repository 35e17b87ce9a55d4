use std::io::Write;
use vstd::prelude::*;

verus! {

/// The reporting handle the downloader writes run information to.
///
/// Implementations decide where the text goes: a terminal, a log, or nowhere.
pub trait OutputManager {
    fn info(&mut self, msg: &str);

    fn warn(&mut self, msg: &str);

    fn error(&mut self, msg: &str);
}

/// An `OutputManager` that writes each line to the standard error stream.
pub struct StdOutputManager {}

impl StdOutputManager {
    pub fn new() -> StdOutputManager {
        StdOutputManager {}
    }
}

/// Relies on `std::io::stderr` and `writeln`: prints one line of text to the
/// standard error stream.
#[verifier::external_body]
fn write_stderr_line(prefix: &str, msg: &str) {
    let mut err = std::io::stderr();
    let _ = writeln!(err, "{}{}", prefix, msg);
}

impl OutputManager for StdOutputManager {
    fn info(&mut self, msg: &str) {
        write_stderr_line("", msg);
    }

    fn warn(&mut self, msg: &str) {
        write_stderr_line("warning: ", msg);
    }

    fn error(&mut self, msg: &str) {
        write_stderr_line("error: ", msg);
    }
}

} // verus!
