//! The web interface: the shape of its JSON answers.

pub mod forward;
