//! The protocol messages and the decisions a node takes on them. Moving the
//! messages between peers (libp2p, GossipSub, Kademlia) is the caller's.
pub mod protocol;
pub mod sync;

pub use protocol::{GossipMessage, SyncRequest, SyncResponse};
