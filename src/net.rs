//! Decisions of the network side that do not touch a socket.

pub mod check_version;
