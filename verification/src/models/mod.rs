//! The data layer: headers, bodies and chains.
pub mod body;
pub mod body_map;
pub mod chain;
pub mod header;

pub use crate::error::ChainsResult;
pub use body::Body;
pub use chain::Chain;
pub use header::Header;
