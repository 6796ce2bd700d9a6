//! The decisions of a client that runs one command on a remote host over a
//! secure-shell transport.
//!
//! Nothing here touches a socket, a clock or a task. Each module holds one
//! protocol as values that are handed what happened and answer with what to
//! do next, so that the program around them only performs the steps:
//!
//! - [`handshake`]: answering the events of authentication until the server
//!   has decided;
//! - [`drain`]: reading one non-blocking stream to its end;
//! - [`command`]: starting a command, draining its two output streams side by
//!   side, and joining them with the exit status into one [`command::Output`].
//!
//! Each module also runs its protocol over a recording of what a transport
//! did, which is what the stated laws are about.

pub mod command;
pub mod drain;
pub mod handshake;
