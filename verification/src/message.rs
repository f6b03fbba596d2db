//! What a host's proxy posts to the aggregator.

use vstd::prelude::*;

verus! {

/// Either the host's device tree in serialised form, or a sign of life.
#[derive(Debug)]
pub enum Message {
    Data(String),
    Heartbeat,
}

} // verus!
