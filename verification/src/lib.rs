//! Decisions of a connection manager that starts a container when a client connects and stops it
//! again once it has been idle for a while.
//!
//! Every module holds plain state and the functions that move it: they take what happened as a
//! value and hand back what is to be done. Sockets, channels, timers and the Docker API live with
//! the program around the library.

pub mod connman;
pub mod docker;
pub mod id;
pub mod proxy;
pub mod server;
pub mod setup;
pub mod text;
pub mod tui;
