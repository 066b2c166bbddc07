//! Error kinds of the connection and of the value codec.
use vstd::prelude::*;

verus! {

/// Failures of the connection and of operations on remote objects.
#[derive(Clone, Copy, Debug, PartialEq, Eq, Structural)]
pub enum ConnectionError {
    /// The session could not be brought up.
    InitializationError,
    /// The transport is closed: the whole session is gone.
    ReceiverClosed,
    /// A frame's payload does not have the expected shape.
    InvalidParams,
    /// A creation named a parent guid that is not live.
    ParentNotFound,
    /// A guid that is not (or no longer) live was resolved.
    ObjectNotFound,
    /// Every request id of the connection has been handed out.
    IdsExhausted,
}

/// Failures of encoding or decoding a wire value.
#[derive(Clone, Debug)]
pub enum Error {
    /// A message raised by a value being encoded.
    Msg(String),
    /// A map key without its value, or a value without its key.
    OddMap,
    /// A map key that is not a string.
    InvalidKey,
    /// Raw binary payloads cannot be encoded.
    NotSupported,
    /// An object reference without a well-formed guid.
    JsHandle,
    /// A timestamp payload that is not a string.
    DateTime,
    /// A handle index outside the message's handle list.
    Malformed,
    /// A handle names an object that is no longer live.
    ObjectNotFound,
}

} // verus!
