//! Core logic of a roaming-tolerant SSH port forwarder.
pub mod agent;
pub mod bootstrap;
pub mod cli;
pub mod client;
pub mod command;
pub mod config;
pub mod conn;
pub mod control;
pub mod crypto;
pub mod discovery;
pub mod doctor;
pub mod error;
pub mod firewall;
pub mod forward;
pub mod handshake;
pub mod hexcode;
pub mod keys;
pub mod launch;
pub mod logbuf;
pub mod net;
pub mod netwatch;
pub mod proto;
pub mod reverse;
pub mod screen;
pub mod socks;
pub mod supervisor;
pub mod text;
pub mod tui;
pub mod tunnel;
pub mod units;
