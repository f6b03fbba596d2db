//! The ways in which an operation of this library can fail.

use vstd::prelude::*;

verus! {

/// What went wrong. Transport and decoding failures are raised outside this
/// library; the variants here are the ones its own rules produce.
#[derive(Debug, Clone, Copy, PartialEq, Eq, Structural)]
pub enum Error {
    /// A number in text form was malformed or does not fit.
    ParseInt,
    /// An attribute that a device of this class must have is absent.
    MissingField,
    /// No pool with the GUID that a command names is known.
    PoolNotFound,
    /// The pool holds no dataset with the name that a command gives.
    ZfsNotFound,
    /// A node index does not name a node of the graph.
    NodeNotFound,
    /// A SCSI device has a parent that is not a host.
    HostNotFound,
    /// The parent edge would close a cycle.
    GraphCycle,
    /// A host or a volume group cannot become a record: neither is mountable.
    UnmountableRecord,
}

} // verus!
