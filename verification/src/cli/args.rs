//! The command line of the `chains` tool.
use vstd::prelude::*;

verus! {

/// The parsed command line.
pub struct Cli {
    pub command: Commands,
}

/// The subcommands of the `chains` tool.
pub enum Commands {
    /// Create a new chain
    Create { name: String },
    /// Append data to a chain
    Append { chain_id: String, data: String, ttl: u32, key: Option<String> },
    /// List local chains
    List,
    /// Show chain contents
    Show { chain_id: String, key: Option<String> },
    /// Verify chain integrity
    Verify { chain_id: String },
    /// Start P2P daemon with GossipSub + Kademlia DHT
    Daemon { chain_id: Option<String>, data_dir: String, no_repl: bool, key: Option<String> },
    /// Rotate the epoch key for a streaming chain
    EpochRotate { chain_id: String },
    /// Run garbage collection (prune expired bodies/snapshots)
    Gc { chain_id: String },
    /// Initialize a Double Ratchet session for private messaging
    RatchetInit { chain_id: String, remote_key: Option<String> },
}

} // verus!
