use vstd::prelude::*;

verus! {

/// A client of some range-capable transfer protocol.
pub trait ProtocolClient {

}

/// A protocol that can say how long a remote resource is.
pub trait Protocol {
    fn get_file_length() -> Option<u64>;
}

} // verus!
