//! A local simulator of decentralised-exchange pools: it replays PancakeSwap
//! V2 and V3 events into pool states, quotes swaps along paths of pools, and
//! searches the token graph for such paths.
pub mod num;
pub mod types;
pub mod assoc;
pub mod abi;
pub mod event;
pub mod pancake_v2;
pub mod pancake_v3;
pub mod state;
pub mod token_graph;
pub mod search;
pub mod path;
pub mod repository;
pub mod text;
pub mod simulation;
pub mod router;
pub mod config;
pub mod bootstrap;
pub mod utils;
pub mod listen;
pub mod snapshot_files;
pub mod order;
pub mod onchain;
pub mod syncer;
pub mod logging;
pub mod event_source;
pub mod serve;
pub mod setup;
