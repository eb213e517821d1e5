//! The server half of a strict request/reply messaging exchange: a REP
//! socket that serves any number of connected requesters at once.
//!
//! Inbound frames from all peers are merged by a fair multiplexer
//! ([`fair_queue::FairQueue`]) that schedules the sources in rotation, so no
//! peer can starve another.  The socket ([`rep::RepSocket`]) strips and
//! saves each request's routing envelope, hands the payload to the
//! application, and routes the next reply back to exactly the peer that is
//! owed it.  The transport and codec layers live outside: they register
//! peers, deliver whole multipart messages, and signal end-of-stream.

pub mod error;
pub mod events;
pub mod fair_queue;
pub mod message;
pub mod peer;
pub mod rep;

pub use error::ReturnReason;
pub use error::ZmqError;
pub use events::SocketEvent;
pub use events::SocketType;
pub use message::ZmqMessage;
pub use peer::PeerIdentity;
pub use rep::RecvPoll;
pub use rep::RepSocket;
