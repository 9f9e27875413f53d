//! Network addresses of participants: an IP address and a port.
use vstd::prelude::*;

verus! {

/// A socket address. Version 4 addresses hold the four octets big-endian in
/// one `u32`; version 6 addresses hold the sixteen octets big-endian in one
/// `u128`, with the flow label and scope identifier of the socket.
#[derive(Clone, Copy, PartialEq, Eq, Structural, Hash, Debug)]
#[allow(inconsistent_fields)]
pub enum Address {
    V4 { ip: u32, port: u16 },
    V6 { ip: u128, port: u16, flowinfo: u32, scope_id: u32 },
}

} // verus!
