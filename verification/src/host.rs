//! The forward table: the forwards that have been set up, one row per target.

pub mod ip;
