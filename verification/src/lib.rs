//! The model behind a per-host storage device scanner and the aggregator that
//! merges the hosts' device graphs.

pub mod assemble;
pub mod cache;
pub mod command;
pub mod connections;
pub mod dag;
pub mod db;
pub mod daemon;
pub mod devices;
pub mod error;
pub mod flush_tracker;
pub mod graph;
pub mod hosts;
pub mod join;
pub mod laws;
pub mod message;
pub mod mount;
pub mod node;
pub mod number;
pub mod pool;
pub mod pool_laws;
pub mod reach;
pub mod records;
pub mod reducers;
pub mod state;
pub mod text;
pub mod tree_depth;
pub mod tree_laws;
pub mod udev;
pub mod uevent;
pub mod writer;
pub mod wire;
pub mod zed;
pub mod zed_enhancer;

pub use command::Command;
