//! Verified core of the ApexDaemon background automation daemon.
#![allow(unused_imports)]

pub mod clock;
pub mod config;
pub mod daemon;
pub mod notify;
pub mod order;
pub mod path_order;
pub mod paths;
pub mod plugins;
pub mod state;
pub mod text;
