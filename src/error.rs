use vstd::prelude::*;

verus! {

/// Why a single call failed.
#[derive(Clone, Copy, Debug, PartialEq, Eq, Structural)]
pub enum CallError {
    /// The call's own deadline elapsed before a response arrived.
    Timeout,
    /// The connection was closed, or died, while the call was outstanding
    /// or before it could be registered.
    ConnectionClosed,
    /// The request carried no identifier, or one that is already in flight.
    InvalidRequest,
}

/// Why the transport as a whole failed.
#[derive(Clone, Copy, Debug, PartialEq, Eq, Structural)]
pub enum TransportError {
    /// The connection could not be established.
    Connect,
    /// A call failed.
    Call(CallError),
}

} // verus!
