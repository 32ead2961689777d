//! The record of one bound UDP session.

use vstd::prelude::*;
use crate::server::DisconnectionReason;

verus! {

/// Where a datagram came from: the address's bytes (four for IPv4, sixteen
/// for IPv6) and the port.
pub struct PeerAddress {
    pub octets: Vec<u8>,
    pub port: u16,
}

pub struct UDPConnection {
    pub session: u64,
    pub clientAddr: PeerAddress,
    pub shouldReset: bool,
}

impl UDPConnection {
    pub fn new(session: u64, clientAddr: PeerAddress) -> (r: UDPConnection)
        ensures
            r.session == session,
            r.clientAddr == clientAddr,
            !r.shouldReset,
    {
        UDPConnection { session, clientAddr, shouldReset: false }
    }

    /// Marks the session for removal at the next sweep.
    pub fn _disconnect(&mut self, reason: DisconnectionReason)
        ensures
            final(self).shouldReset,
            final(self).session == old(self).session,
            final(self).clientAddr == old(self).clientAddr,
    {
        self.shouldReset = true;
    }
}

} // verus!
