//! A line-oriented broadcast relay: every line that any client sends is
//! handed to every client that is connected at that moment.
//!
//! The crate holds the relay's rules as verified, I/O-free code:
//!
//! * [`hub`]: the broadcast hub, a bounded log with one cursor per subscriber;
//! * [`trace`]: what holds of every history of a hub: order, no backfill,
//!   fan-out, lag and recovery, and that one subscriber's leaving is unseen;
//! * [`config`]: the start-up configuration and the address to listen on;
//! * [`wire`]: the newline-delimited wire format, in both directions;
//! * [`session`]: what one connection's reader and writer do next;
//! * [`server`]: what the acceptor does next, from start-up to shutdown.
//!
//! Sockets, tasks and the file system belong to the program that drives
//! these state machines.

pub mod config;
pub mod hub;
pub mod server;
pub mod session;
pub mod trace;
pub mod wire;
