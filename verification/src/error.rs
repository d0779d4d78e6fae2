use vstd::prelude::*;

verus! {

/// The error kinds of this library: a control-node lookup miss, a
/// filesystem-level failure reported by the caller that performs the
/// backing I/O, and a generic fatal condition (permanent loss of the
/// telemetry channel).
#[derive(Debug)]
pub enum Error {
    NodeNotFound,
    Io,
    Other(&'static str),
}

} // verus!
