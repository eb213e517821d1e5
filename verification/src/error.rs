use vstd::prelude::*;
use crate::message::ZmqMessage;

verus! {

/// Why a reply was handed back to its caller instead of being delivered.
pub enum ReturnReason {
    /// `send` was called while no request was in progress: either before any
    /// `recv`, or a second time after one `recv` already got its reply.
    NoRequestInProgress,
    /// The peer that issued the pending request disconnected before the
    /// reply could be routed to it.
    ClientDisconnected,
}

impl ReturnReason {
    /// The reason as text, distinguishing the two return-to-sender cases.
    pub fn text(&self) -> (r: &'static str)
        ensures
            self is NoRequestInProgress ==> r@ == "Unable to send reply. No request in progress"@,
            self is ClientDisconnected ==> r@ == "Client disconnected"@,
    {
        match self {
            ReturnReason::NoRequestInProgress => "Unable to send reply. No request in progress",
            ReturnReason::ClientDisconnected => "Client disconnected",
        }
    }
}

/// The failures this socket reports.  Peer-local failures never abort the
/// socket as a whole; only multiplexer exhaustion ends receiving for good.
pub enum ZmqError {
    /// The inbound multiplexer is exhausted: streams were registered and
    /// every one of them has ended, so nothing buffered remains and none of
    /// them will produce again.
    NoMessage,
    /// A delivered message had fewer than two frames, so it cannot carry
    /// both a routing frame and a payload.
    ProtocolViolation,
    /// A non-data control frame, or a transport-level read error, arrived
    /// through the multiplexer from one peer.
    UnsupportedInbound,
    /// The reply could not be delivered; the untouched message is handed
    /// back so the caller can redirect or discard it.
    ReturnToSender { reason: ReturnReason, message: ZmqMessage },
}

} // verus!
