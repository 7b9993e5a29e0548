//! Looking into the network: the name behind an address, and the route to it.
//!
//! Nothing here is needed for the monitor itself. Every failure, from a missing
//! name server to a malformed reply, ends in an absent answer and in nothing
//! louder.

pub mod dns;
pub mod traceroute;
