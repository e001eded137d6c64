//! Phone call automation: the decisions behind the `dialf` daemon and its command line.

pub mod adb_link;
pub mod audio;
pub mod bundle;
pub mod cli;
pub mod config;
pub mod daemon;
pub mod hex;
pub mod hostcheck;
pub mod hub;
pub mod jobs;
pub mod loopback;
pub mod paths;
pub mod phone;
pub mod protocol;
pub mod reachability;
pub mod registry;
pub mod search;
pub mod service;
pub mod share;
pub mod table;
pub mod text;
pub mod transport;
