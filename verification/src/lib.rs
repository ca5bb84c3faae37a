//! Traffic forwarding rules for iptables: the commands that create, list and
//! remove forwarding rules, the reading of iptables listings, and the decisions
//! that tie the forward table to the firewall.
//!
//! Operations that must run commands or read the forward table are written as
//! state machines (see [`effect`]); the program around the library performs
//! what they ask for and hands the answers back.

pub mod effect;
pub mod host;
pub mod iptables;
pub mod service;
pub mod text;
pub mod web;
