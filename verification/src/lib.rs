//! Broker between a testing system and a fleet of invokers: wire codecs,
//! session state and the dispatch rules, with machine-checked contracts.

use vstd::prelude::*;

pub mod authorisation;
pub mod control_panel;
pub mod identifier;
pub mod invoker;
pub mod invokers_side;
pub mod json;
pub mod laws;
pub mod model;
pub mod seconds;
pub mod server;
pub mod submission;
pub mod testing_system;
pub mod testing_system_side;
pub mod text;
pub mod verdict;

verus! {

/// The largest frame that either socket takes, in bytes.
pub const MAX_MESSAGE_SIZE: usize = 0x8000_0000;

/// The level at which frames are compressed.
pub const COMPRESSION_LEVEL: u32 = 9;

/// The seconds between two pings of the testing system.
pub const PING_INTERVAL: u64 = 30;

} // verus!
