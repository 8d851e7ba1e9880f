//! The core of a discrete-event simulator.
//!
//! Models exchange messages through bounded mailboxes wired by output ports
//! (`mailbox`, `ports`); a scheduler keeps deferred actions ordered by
//! deadline and insertion order, with cancellation by key and periodic
//! repetition (`scheduler`); the simulation loop advances virtual time epoch
//! by epoch (`simulation`), optionally paced by a wall clock (`clock`).
//! Around it: virtual time (`time`), event sinks (`sink`), a self-scheduling
//! model (`ticker`), registries of sources and keys (`registry`,
//! `key_registry`), and the decisions of the remote-procedure surface
//! (`server`).

pub mod clock;
pub mod key_registry;
pub mod mailbox;
pub mod ports;
pub mod registry;
pub mod scheduler;
pub mod server;
pub mod simulation;
pub mod sink;
pub mod ticker;
pub mod time;
