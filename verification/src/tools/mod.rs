//! What the command-line tools decide: what their arguments ask for, and what
//! the answers of a device come to.

pub mod client;
pub mod course;
pub mod server;
pub mod sniff;
pub mod sweep;
