//! Verified core of the Arctica cold-storage wallet: descriptor templates,
//! configuration updates, time-lock arithmetic and the parsing of system
//! command output.

pub mod chain_time;
pub mod text;
pub mod error;
pub mod helper;
pub mod descriptor;
pub mod config;
pub mod setup;
pub mod devices;
pub mod wallet;
pub mod keys;
pub mod node;
pub mod psbt;


