//! Verified logic of a set of UNIX network programming examples: socket parameters, the
//! line-summing echo service, datagram and stream echo steps, and the bookkeeping of
//! select- and poll-driven servers.
pub mod client_table;
pub mod datagram;
pub mod daytime;
pub mod decimal;
pub mod relay;
pub mod sockets;
pub mod stream_echo;
pub mod sum_service;
pub mod utf8_text;

pub use sockets::{Family, Protocol};
