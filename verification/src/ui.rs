use vstd::prelude::*;

verus! {

/// The capability interface one whole run reports through.  Implementations
/// decide how progress is shown: a multi-bar terminal, a log, or nothing.
pub trait Interface: Sized {
    type Part: PartInterface;

    /// Build the interface for a run whose target file is `output`.
    fn init(output: String) -> Self;

    /// Hand out the reporting handle for the next segment.
    fn part_interface(&mut self) -> Self::Part;

    /// Serve the interface until the run's reporting is done.
    fn listen(&mut self);
}

/// The capability interface one segment's worker reports to: restored once
/// when prior bytes exist, updated per chunk, and finished exactly once,
/// with either `complete` or `fail`.
pub trait PartInterface: Sized {
    fn restore(&mut self, total_length: u64, content_length: u64);

    fn update(&mut self, new_progress: usize);

    fn complete(&mut self);

    fn fail(&mut self);
}

/// Forwards the size of every chunk a worker writes to the segment's
/// reporting interface.
pub struct PartWriter<I: PartInterface> {
    pub interface: I,
}

impl<I: PartInterface> PartWriter<I> {
    pub fn new(interface: I) -> PartWriter<I> {
        PartWriter { interface }
    }

    /// Report one written chunk; the whole chunk is always accepted.
    pub fn write(&mut self, buf: &[u8]) -> (r: usize)
        ensures
            r == buf@.len(),
    {
        self.interface.update(buf.len());
        buf.len()
    }

    pub fn flush(&mut self) {
    }
}

} // verus!
