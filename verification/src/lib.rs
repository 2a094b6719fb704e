//! The supervision core of a desktop client that runs tunnel programs as
//! managed child processes.
//!
//! The core decides; it performs no I/O. Its owner starts, reads and
//! signals the processes, and tells the core what happened:
//!
//! - `registry`: the mapping from identifier to process handle.
//! - `manager`: launching, terminating and querying against the registry.
//! - `streamer`: turning reads on a process's two pipes into events.
//! - `events`: what the event sink receives, and on which channel.
//! - `probe`: reading a program's version from what it printed.
//! - `cipher`: obfuscating text at rest under a key of this machine.
//! - `trusted`: the calls into other crates, with the contracts that the
//!   proofs take on trust.

pub mod cipher;
pub mod events;
pub mod manager;
pub mod probe;
pub mod registry;
pub mod streamer;
pub mod trusted;
