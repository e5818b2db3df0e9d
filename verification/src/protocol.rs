//! What the client and the server have in common about a connection: the stages
//! of the handshake, the readiness events of a socket, and the interest that a
//! side registers for its socket next.

use vstd::prelude::*;

verus! {

/// The stage that a connection has reached, seen from either side.
#[derive(Debug, PartialEq, Eq, Clone, Copy, Structural)]
pub enum ClientState {
    NotConnected,
    ParamReqSent,
    ParamsReceived,
    ClientNumberSent,
    ServerNumberSent,
    NumbersExchanged,
    Connected,
}

/// How far along the handshake a stage is; the two stages in which one public
/// number has gone one way stand level.
pub open spec fn stage_rank(state: ClientState) -> nat {
    match state {
        ClientState::NotConnected => 0,
        ClientState::ParamReqSent => 1,
        ClientState::ParamsReceived => 2,
        ClientState::ClientNumberSent => 3,
        ClientState::ServerNumberSent => 3,
        ClientState::NumbersExchanged => 4,
        ClientState::Connected => 5,
    }
}

/// The readiness of a socket that the event loop reports.
#[derive(Debug, Clone, Copy)]
pub struct Events {
    pub readable: bool,
    pub writable: bool,
    pub error: bool,
    pub hup: bool,
}

/// The events that a side asks to be woken for next.
#[derive(Debug, PartialEq, Eq, Clone, Copy, Structural)]
pub enum Interest {
    Readable,
    Writable,
    ReadableWritable,
}

/// Whether an interest wakes its side to write.
pub open spec fn includes_writing(i: Interest) -> bool {
    i == Interest::Writable || i == Interest::ReadableWritable
}

/// Whether an interest wakes its side to read.
pub open spec fn includes_reading(i: Interest) -> bool {
    i == Interest::Readable || i == Interest::ReadableWritable
}

} // verus!
