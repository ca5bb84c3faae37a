//! iptables: the rules that make a forward, and the reading of its listings.

pub mod tools;
