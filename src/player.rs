//! The authenticated session: one identity over one TCP stream and one UDP
//! session, both under the player's handle.

use vstd::prelude::*;
use crate::packet::{ClientToServerTCPPacket, ClientToServerUDPPacket};
use crate::server::DisconnectionReason;

verus! {

pub struct Player {
    pub isActive: bool,
    pub playerID: usize,
    pub userID: usize,
    pub userName: String,
}

/// The state of a player after a disconnect, and whether the disconnect is
/// to be passed on to both transports.
pub open spec fn disconnect_outcome(p: Player) -> (Player, bool) {
    (Player { isActive: false, ..p }, p.isActive)
}

/// Disconnecting twice passes the disconnect on once: the second call finds
/// the player inactive, changes nothing and passes nothing on.
pub proof fn lemma_disconnect_idempotent(p: Player)
    ensures
        ({
            let (once, first) = disconnect_outcome(p);
            let (twice, second) = disconnect_outcome(once);
            &&& !second
            &&& twice == once
            &&& first == p.isActive
        }),
{
}

impl Player {
    pub fn new(playerID: usize, userID: usize, userName: String) -> (r: Player)
        ensures
            r == (Player { isActive: true, playerID, userID, userName }),
    {
        Player { isActive: true, playerID, userID, userName }
    }

    /// Marks the player inactive without passing the disconnect on.
    pub fn _disconnect(&mut self, reason: DisconnectionReason)
        ensures
            *final(self) == disconnect_outcome(*old(self)).0,
    {
        self.isActive = false;
    }

    /// Marks the player inactive; says whether it was active, in which case
    /// the TCP stream and the UDP session are to follow.
    pub fn disconnect(&mut self, reason: DisconnectionReason) -> (r: bool)
        ensures
            (*final(self), r) == disconnect_outcome(*old(self)),
    {
        let was_active = self.isActive;
        self.isActive = false;
        was_active
    }

    /// Handles an application packet that came over TCP; the game layer
    /// defines none yet.
    pub fn processMessage(&mut self, packet: &ClientToServerTCPPacket) -> (r: Result<(), String>)
        ensures
            r is Ok,
            *final(self) == *old(self),
    {
        Ok(())
    }

    /// Handles an application datagram with the client's timestamp; the
    /// game layer defines none yet.
    pub fn processDatagram(&mut self, packet: &ClientToServerUDPPacket, time: u64)
        ensures
            *final(self) == *old(self),
    {
    }
}

} // verus!
