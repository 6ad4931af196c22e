//! Bounded output capture for subprocesses and the shapes of the messages
//! exchanged with the session daemon.

pub mod buffer;
pub mod chunks;
pub mod retention;
pub mod std_types;
pub mod subprocess;
pub mod usage;
pub mod tool_use;
pub mod msg;
