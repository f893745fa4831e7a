//! Relay for a sandboxed language server: the framing of its message stream,
//! the per-stream inspector, the relay state machine and the rules of the
//! process group that runs the three relays.

pub mod parser;
pub mod inspector;
pub mod pump;
pub mod supervisor;
