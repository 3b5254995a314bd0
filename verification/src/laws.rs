//! What the library does, said in bytes and numbers.
//!
//! The modules of the library describe each operation by what it makes of its inputs.
//! The laws here say what those results are good for: which bytes a frame holds, which
//! inputs are accepted, what a packet leaves unchanged, where a frame goes.

pub mod bytes;
pub mod forwarding;
pub mod packets;
pub mod ports;
pub mod setup;
pub mod tables;
pub mod tunnel;
pub mod writing;
