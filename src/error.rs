//! Errors of the client.
use vstd::prelude::*;

verus! {

/// Why a dispatch loop ended.
#[derive(Clone, Copy, Debug, PartialEq, Eq, Structural)]
pub enum StopReason {
    /// The handler asked to stop.
    HandlerStopped,
    /// The receive half of the stream closed.
    ReceiveClosed,
    /// Reading from the stream failed.
    Transport,
    /// A frame could not be decoded.
    Protocol,
    /// A reply came while no command awaited one.
    Desynchronized,
}

#[derive(Clone, Debug, PartialEq, Eq)]
pub enum Error {
    /// Opening the stream or the handshake failed.
    Connection,
    /// Writing to or reading from the stream failed.
    Transport,
    /// A frame is not in the wire format.
    Protocol,
    /// The server refused a command, with its error code.
    Domain(String),
    /// A reply came while no command awaited one.
    Desynchronized,
    /// The stream closed.
    WsClosed,
    /// The dispatch loop ended while a command awaited its reply.
    LoopClosed(StopReason),
    /// A dispatch loop is already running on this session.
    LoopRunning,
}

} // verus!
