//! The shared registry: connection and player tables, the handle-to-token
//! map, the pending-disconnect queues, and the server's own state machine.

use vstd::prelude::*;
use crate::bigendian::be_u64;
use crate::lexer::chars_of;
use crate::text::starts_with;
use crate::tcp_connection::{identity_in, identity_request, is_identity_request};
use vstd::utf8::{decode_utf8, valid_utf8};
use crate::packet::{
    decode_client_udp, ClientTcpMsg, ClientToServerTCPPacket, ClientToServerUDPPacket, ClientUdpMsg,
    UDP_HEADER_LENGTH,
};
use crate::player::Player;
use crate::slot_table::SlotTable;
use crate::tcp_connection::{
    checked, farewell, reregistered, times_out, wire, Interest, ReadResult, TCPConnection, TCPConnectionStage,
};
use crate::framing::{bytes_of, feed};
use crate::udp_connection::{PeerAddress, UDPConnection};
use crate::packet::ServerTcpMsg;

verus! {

/// The server as a whole: two reactors each report in once during
/// initialization; then it processes until shutdown or an error of one of
/// the reactors.
#[derive(PartialEq, Eq, Structural, Copy, Clone)]
pub enum ServerState {
    Initialization(usize),
    Processing,
    Shutdown,
    TCPError,
    UDPError,
}

/// Why a connection or a player goes away.
pub enum DisconnectionReason {
    Hup,
    ServerShutdown,
    FatalError(String),
    ClientDesire(String),
    ServerDesire(String),
    ClientError(String),
    ServerError(String),
}

/// The transport, or the player, that saw a disconnect first.
#[derive(PartialEq, Eq, Structural, Copy, Clone)]
pub enum DisconnectionSource {
    TCP,
    UDP,
    Player,
}

impl DisconnectionReason {
    /// Whether the TCP stream is reset at once, rather than closed after a
    /// farewell message.
    pub open spec fn resets_at_once(&self) -> bool {
        match self {
            DisconnectionReason::Hup => true,
            DisconnectionReason::FatalError(_) => true,
            DisconnectionReason::ClientDesire(_) => true,
            DisconnectionReason::ClientError(_) => true,
            _ => false,
        }
    }

    pub fn is_reset(&self) -> (r: bool)
        ensures
            r == self.resets_at_once(),
    {
        match self {
            DisconnectionReason::Hup => true,
            DisconnectionReason::FatalError(_) => true,
            DisconnectionReason::ClientDesire(_) => true,
            DisconnectionReason::ClientError(_) => true,
            _ => false,
        }
    }

    pub fn duplicate(&self) -> (r: DisconnectionReason)
        ensures
            r == *self,
    {
        match self {
            DisconnectionReason::Hup => DisconnectionReason::Hup,
            DisconnectionReason::ServerShutdown => DisconnectionReason::ServerShutdown,
            DisconnectionReason::FatalError(m) => DisconnectionReason::FatalError(m.clone()),
            DisconnectionReason::ClientDesire(m) => DisconnectionReason::ClientDesire(m.clone()),
            DisconnectionReason::ServerDesire(m) => DisconnectionReason::ServerDesire(m.clone()),
            DisconnectionReason::ClientError(m) => DisconnectionReason::ClientError(m.clone()),
            DisconnectionReason::ServerError(m) => DisconnectionReason::ServerError(m.clone()),
        }
    }
}

/// Longest datagram the UDP reactor reads.
pub const UDP_DATAGRAM_LENGTH_LIMIT: usize = 4096;

/// Number of handles a session token can carry in its low sixteen bits.
pub const HANDLE_SPACE: usize = 65536;

/// The session token minted from `random` for `handle`: a nonzero 48-bit
/// nonce in the high bits, the handle in the low sixteen.
pub open spec fn token_for(random: u64, handle: nat) -> int {
    ((random % 0xFFFF_FFFF_FFFE) + 1) * 0x1_0000 + handle
}

/// The handle a session token names.
pub open spec fn token_handle(token: u64) -> nat {
    (token % 0x1_0000) as nat
}

pub fn mint_token(random: u64, handle: usize) -> (r: u64)
    requires
        handle < HANDLE_SPACE,
    ensures
        r == token_for(random, handle as nat),
        r != 0,
        token_handle(r) == handle,
{
    let nonce = random % 0xFFFF_FFFF_FFFE + 1;
    assert(nonce * 0x1_0000 + handle < 0x1_0000_0000_0000_0000) by (nonlinear_arith)
        requires
            nonce <= 0xFFFF_FFFF_FFFE,
            handle < 0x1_0000,
    ;
    let r = nonce * 0x1_0000 + handle as u64;
    assert((nonce * 0x1_0000 + handle) % 0x1_0000 == handle) by (nonlinear_arith)
        requires
            handle < 0x1_0000,
            nonce >= 1,
    ;
    r
}

/// Relies on `time::get_time`: the wall clock, in whole seconds since the
/// epoch; nothing is known of its value.
#[verifier::external_body]
pub(crate) fn now_secs() -> (r: i64) {
    time::get_time().sec
}

/// Relies on `rand::random`: a value drawn from the thread's generator, of
/// which nothing is promised.
pub assume_specification<T>[ rand::random::<T> ]() -> (r: T)
    where
        rand::distributions::Standard: rand::distributions::Distribution<T>,
;

/// The characters that `String::from_utf8_lossy` makes of some bytes.
pub uninterp spec fn lossy_utf8(b: Seq<u8>) -> Seq<char>;

/// Relies on `String::from_utf8_lossy`: the result depends on the bytes
/// alone, and valid UTF-8 comes out decoded as it is.
#[verifier::external_body]
fn utf8_lossy(b: &[u8]) -> (r: String)
    ensures
        r@ == lossy_utf8(b@),
        valid_utf8(b@) ==> r@ == decode_utf8(b@),
{
    String::from_utf8_lossy(b).into_owned()
}

/// At handle `h`: an active player has a bound token and an active TCP
/// stream, and a UDP session marked for removal has no active player.
pub open spec fn linked(
    players: Map<int, Player>,
    tcp: Map<int, TCPConnection>,
    udp: Map<int, UDPConnection>,
    sessions: Seq<u64>,
    h: int,
) -> bool {
    &&& players.contains_key(h) && players[h].isActive ==> 0 <= h < sessions.len() && sessions[h] != 0
        && tcp.contains_key(h) && tcp[h].isActive
    &&& udp.contains_key(h) && udp[h].shouldReset ==> !(players.contains_key(h) && players[h].isActive)
}

/// The links survive any change that makes no player active, no TCP stream
/// inactive or absent, no UDP session newly marked for removal, and clears
/// no token.
pub proof fn lemma_linked_frame(
    players_a: Map<int, Player>,
    tcp_a: Map<int, TCPConnection>,
    udp_a: Map<int, UDPConnection>,
    sessions_a: Seq<u64>,
    players_b: Map<int, Player>,
    tcp_b: Map<int, TCPConnection>,
    udp_b: Map<int, UDPConnection>,
    sessions_b: Seq<u64>,
)
    requires
        forall|h: int| #[trigger] linked(players_a, tcp_a, udp_a, sessions_a, h),
        forall|h: int|
            #[trigger] players_b.contains_key(h) && players_b[h].isActive ==> players_a.contains_key(h) && players_a[h].isActive,
        forall|h: int|
            #[trigger] tcp_a.contains_key(h) && tcp_a[h].isActive ==> tcp_b.contains_key(h) && tcp_b[h].isActive,
        forall|h: int|
            #[trigger] udp_b.contains_key(h) && udp_b[h].shouldReset ==> udp_a.contains_key(h) && udp_a[h].shouldReset,
        sessions_a == sessions_b,
    ensures
        forall|h: int| #[trigger] linked(players_b, tcp_b, udp_b, sessions_b, h),
{
    assert forall|h: int| #[trigger] linked(players_b, tcp_b, udp_b, sessions_b, h) by {
        assert(linked(players_a, tcp_a, udp_a, sessions_a, h));
        if players_b.contains_key(h) && players_b[h].isActive {
            assert(players_a.contains_key(h) && players_a[h].isActive);
            assert(tcp_a.contains_key(h) && tcp_a[h].isActive);
        }
        if udp_b.contains_key(h) && udp_b[h].shouldReset {
            assert(udp_a.contains_key(h) && udp_a[h].shouldReset);
            if players_b.contains_key(h) && players_b[h].isActive {
                assert(players_a.contains_key(h) && players_a[h].isActive);
            }
        }
    }
}

/// A registry change that only keeps players from being active, keeps TCP
/// streams active, marks no UDP session for removal and keeps the tokens
/// keeps the registry well formed.
pub proof fn lemma_server_frame(a: Server, b: Server)
    requires
        a.wf(),
        b.tables_wf(),
        forall|h: int|
            #[trigger] b.players.view().contains_key(h) && b.players.view()[h].isActive
                ==> a.players.view().contains_key(h) && a.players.view()[h].isActive,
        forall|h: int|
            #[trigger] a.tcpConnections.view().contains_key(h) && a.tcpConnections.view()[h].isActive
                ==> b.tcpConnections.view().contains_key(h) && b.tcpConnections.view()[h].isActive,
        forall|h: int|
            #[trigger] b.udpConnections.view().contains_key(h) && b.udpConnections.view()[h].shouldReset
                ==> a.udpConnections.view().contains_key(h) && a.udpConnections.view()[h].shouldReset,
        a.sessions@ == b.sessions@,
    ensures
        b.wf(),
{
    lemma_linked_frame(
        a.players.view(),
        a.tcpConnections.view(),
        a.udpConnections.view(),
        a.sessions@,
        b.players.view(),
        b.tcpConnections.view(),
        b.udpConnections.view(),
        b.sessions@,
    );
}

/// What a handshake datagram does (`ok` tells whether it was accepted): its
/// payload must be an `Initialization` naming a handle within the table,
/// whose TCP stream is active and waiting for exactly this handshake, with
/// no player yet. Then a token is minted from `random`, the stream plays,
/// and the UDP session and the player are created under that handle. A
/// handle already bound to a live session is accepted again and changes
/// nothing. Every refusal leaves the registry as it was.
pub open spec fn udp_accept_outcome(
    pre: Server,
    datagram: Seq<u8>,
    clientAddr: PeerAddress,
    random: u64,
    post: Server,
    ok: bool,
) -> bool {
        match decode_client_udp(datagram.skip(UDP_HEADER_LENGTH as int)) {
            None => !ok && post == pre,
            Some(ClientUdpMsg::Initialization(h)) => {
                let tcp = pre.tcpConnections.view();
                if h >= pre.sessions@.len() {
                    !ok && post == pre
                } else if pre.sessions@[h as int] != 0 {
                    post == pre && (ok <==> !pre.udpConnections.view()[h as int].shouldReset)
                } else if !(tcp.contains_key(h as int) && tcp[h as int].isActive) {
                    !ok && post == pre
                } else if pre.players.view().contains_key(h as int) {
                    !ok && post == pre
                } else {
                    match tcp[h as int].stage {
                        TCPConnectionStage::UDPConnectionInitialization(_, userID, userName) => {
                            let token = token_for(random, h);
                            &&& ok
                            &&& post.sessions@ == pre.sessions@.update(
                                h as int,
                                token as u64,
                            )
                            &&& post.tcpConnections.view().dom() == tcp.dom()
                            &&& post.tcpConnections.view()[h as int] == (TCPConnection {
                                stage: TCPConnectionStage::Playing,
                                ..tcp[h as int]
                            })
                            &&& forall|k: int| k != h && #[trigger] tcp.contains_key(k)
                                ==> post.tcpConnections.view()[k] == tcp[k]
                            &&& post.udpConnections.view() == pre.udpConnections.view().insert(
                                h as int,
                                UDPConnection {
                                    session: token as u64,
                                    clientAddr,
                                    shouldReset: false,
                                },
                            )
                            &&& post.players.view() == pre.players.view().insert(
                                h as int,
                                Player {
                                    isActive: true,
                                    playerID: h as usize,
                                    userID,
                                    userName,
                                },
                            )
                        },
                        _ => !ok && post == pre,
                    }
                }
            },
        }
}

/// What the periodic sweep of the TCP table at time `now` does: every
/// stream is checked; the streams that were marked for reset leave the
/// table, with their players, and are listed in `removed`; the others stay
/// as the check left them; a stream that timed out leaves its player
/// inactive.
pub open spec fn tcp_swept(pre: Server, now: i64, post: Server, removed: Seq<usize>) -> bool {
    let t = pre.tcpConnections.view();
    &&& forall|k: int| #[trigger] post.tcpConnections.view().contains_key(k) <==> (
        t.contains_key(k) && !t[k].shouldReset)
    &&& forall|k: int| #[trigger] post.tcpConnections.view().contains_key(k) ==> checked(
        t[k],
        now,
        post.tcpConnections.view()[k],
    )
    &&& forall|k: int| #[trigger] t.contains_key(k) && t[k].shouldReset ==> !post.players.view().contains_key(k)
        && removed.contains(k as usize)
    &&& forall|k: int| #[trigger] t.contains_key(k) && times_out(t[k], now) ==> !post.player_active(k)
    &&& forall|j: int| 0 <= j < removed.len() ==> t.contains_key(#[trigger] removed[j] as int)
        && t[removed[j] as int].shouldReset
    &&& post.udpConnections.view().dom() == pre.udpConnections.view().dom()
    &&& post.sessions == pre.sessions
}

/// What the periodic sweep of the UDP table does: the sessions marked for
/// removal leave the table and their handles' tokens are cleared; every
/// other session stays, with its token; nothing else changes.
pub open spec fn udp_swept(pre: Server, post: Server) -> bool {
    let u = pre.udpConnections.view();
    &&& forall|k: int| #[trigger] post.udpConnections.view().contains_key(k) <==> (u.contains_key(k)
        && !u[k].shouldReset)
    &&& forall|k: int| #[trigger] post.udpConnections.view().contains_key(k) ==> post.udpConnections.view()[k]
        == u[k]
    &&& post.sessions@.len() == pre.sessions@.len()
    &&& forall|k: int| 0 <= k < pre.sessions@.len() ==> #[trigger] post.sessions@[k] == (if u.contains_key(k)
        && u[k].shouldReset {
        0u64
    } else {
        pre.sessions@[k]
    })
    &&& post.tcpConnections == pre.tcpConnections
    &&& post.players == pre.players
}

/// One handle after the sweep has passed it.
pub open spec fn swept_at(t: Map<int, TCPConnection>, now: i64, post: Server, k: int) -> bool {
    &&& t[k].shouldReset ==> !post.tcpConnections.view().contains_key(k) && !post.players.view().contains_key(k)
    &&& !t[k].shouldReset ==> post.tcpConnections.view().contains_key(k) && checked(
        t[k],
        now,
        post.tcpConnections.view()[k],
    )
    &&& times_out(t[k], now) ==> !post.player_active(k)
}

/// What disconnecting the TCP stream of `h` for `reason` does: an active
/// stream is disconnected, its player made inactive and its UDP session
/// marked for removal; a stream already disconnecting is reset by a reason
/// that resets and otherwise left as it is.
pub open spec fn tcp_disconnect_outcome(pre: Server, h: int, reason: DisconnectionReason, post: Server) -> bool {
    &&& post.tcpConnections.view().dom() == pre.tcpConnections.view().dom()
    &&& post.udpConnections.view().dom() == pre.udpConnections.view().dom()
    &&& post.players.view().dom() == pre.players.view().dom()
    &&& post.sessions == pre.sessions
    &&& post.state == pre.state
    &&& !pre.tcpConnections.view().contains_key(h) || (!pre.tcpConnections.view()[h].isActive && !reason.resets_at_once()) ==> post == pre
    &&& pre.tcpConnections.view().contains_key(h) && !pre.tcpConnections.view()[h].isActive && reason.resets_at_once() ==> {
        &&& post.tcpConnections.view()[h] == (TCPConnection { shouldReset: true, stage: TCPConnectionStage::Disconnecting(reason), ..pre.tcpConnections.view()[h] })
        &&& post.players == pre.players
        &&& post.udpConnections == pre.udpConnections
        &&& post.disconnectLog == pre.disconnectLog
    }
    &&& pre.tcpConnections.view().contains_key(h) && pre.tcpConnections.view()[h].isActive ==> ({
        let before = pre.tcpConnections.view()[h];
        let after = post.tcpConnections.view()[h];
        &&& !after.isActive
        &&& after.stage == TCPConnectionStage::Disconnecting(reason)
        &&& after.reading() == before.reading()
        &&& after.shouldReset == (before.shouldReset || reason.resets_at_once())
        &&& match farewell(reason) {
            Some(m) => after.queued() == seq![wire(m)],
            None => after.queued() == before.queued(),
        }
        &&& pre.udpConnections.view().contains_key(h) ==> post.udpConnections.view()[h].shouldReset
        &&& pre.players.view().contains_key(h) ==> !post.players.view()[h].isActive
        &&& post.disconnectLog@ == pre.disconnectLog@.push((h as usize, DisconnectionSource::TCP, reason))
    })
    &&& forall|k: int|
        k != h && #[trigger] pre.tcpConnections.view().contains_key(k) ==> post.tcpConnections.view()[k] == pre.tcpConnections.view()[k]
    &&& post.disconnectTCPConnectionsList == pre.disconnectTCPConnectionsList
    &&& post.disconnectUDPConnectionsList == pre.disconnectUDPConnectionsList
    &&& post.disconnectPlayersList == pre.disconnectPlayersList
    &&& post.tcpTickTime == pre.tcpTickTime
    &&& post.udpTickTime == pre.udpTickTime
}

/// `trace` runs from the registry as it was, with its queue of TCP
/// disconnects taken out, through one disconnect per entry of `queue`, in
/// order and with that entry's reason, to `post`.
pub open spec fn tcp_queue_applied(
    pre: Server,
    queue: Seq<(usize, DisconnectionReason)>,
    trace: Seq<Server>,
    post: Server,
) -> bool {
    &&& trace.len() == queue.len() + 1
    &&& trace[0] == (Server { disconnectTCPConnectionsList: trace[0].disconnectTCPConnectionsList, ..pre })
    &&& trace[0].disconnectTCPConnectionsList@.len() == 0
    &&& forall|i: int| 0 <= i < queue.len() ==> #[trigger] tcp_disconnect_outcome(
        trace[i],
        queue[i].0 as int,
        queue[i].1,
        trace[i + 1],
    )
    &&& trace[queue.len() as int] == post
}

/// Handle `k` has an entry in `out`.
pub open spec fn listed(out: Seq<(usize, Interest)>, k: int) -> bool {
    exists|j: int| 0 <= j < out.len() && out[j].0 as int == k
}

/// What became of a datagram.
pub enum DatagramResult {
    /// Too short or too long to be read.
    Dropped,
    /// A handshake that bound, or had already bound, a session.
    Accepted,
    /// A handshake that was refused, and why.
    AcceptError(String),
    /// Its token does not match the one stored for the handle it names.
    Discarded,
    /// Handed to the player.
    Delivered,
    /// Its token matched but its payload did not decode.
    DecodeError(String),
}

pub struct Server {
    pub state: ServerState,
    pub tcpConnections: SlotTable<TCPConnection>,
    pub udpConnections: SlotTable<UDPConnection>,
    pub players: SlotTable<Player>,
    /// For each handle, the token of its UDP session, or zero.
    pub sessions: Vec<u64>,
    pub disconnectTCPConnectionsList: Vec<(usize, DisconnectionReason)>,
    pub disconnectUDPConnectionsList: Vec<(usize, DisconnectionReason)>,
    pub disconnectPlayersList: Vec<(usize, DisconnectionReason)>,
    pub tcpTickTime: i64,
    pub udpTickTime: i64,
    /// Every disconnect that took effect, in order: the handle, the
    /// transport or player it started from, and why.
    pub disconnectLog: Vec<(usize, DisconnectionSource, DisconnectionReason)>,
}

impl Server {
    pub open spec fn wf(&self) -> bool {
        &&& self.tables_wf()
        &&& forall|h: int|
            #[trigger] linked(
                self.players.view(),
                self.tcpConnections.view(),
                self.udpConnections.view(),
                self.sessions@,
                h,
            )
    }

    /// Each table on its own, and the tokens against the UDP table.
    pub open spec fn tables_wf(&self) -> bool {
        &&& forall|h: int| #[trigger]
            self.tcpConnections.view().contains_key(h) ==> self.tcpConnections.view()[h].wf()
                && self.tcpConnections.view()[h].token == h
        &&& self.sessions@.len() == self.udpConnections.capacity()
        &&& self.sessions@.len() == self.players.capacity()
        &&& self.sessions@.len() <= HANDLE_SPACE
        &&& forall|h: int| #[trigger]
            self.udpConnections.view().contains_key(h) ==> 0 <= h < self.sessions@.len()
                && self.sessions@[h] != 0 && self.sessions@[h]
                == self.udpConnections.view()[h].session
        &&& forall|h: int|
            0 <= h < self.sessions@.len() && #[trigger] self.sessions@[h] != 0 ==> token_handle(
                self.sessions@[h],
            ) == h && self.udpConnections.view().contains_key(h)
    }

    pub open spec fn player_active(&self, h: int) -> bool {
        self.players.view().contains_key(h) && self.players.view()[h].isActive
    }

    pub open spec fn links_at(&self, h: int) -> bool {
        linked(self.players.view(), self.tcpConnections.view(), self.udpConnections.view(), self.sessions@, h)
    }

    /// The links hold at every handle but `x`.
    pub open spec fn links_except(&self, x: int) -> bool {
        forall|h: int|
            h != x ==> #[trigger] linked(
                self.players.view(),
                self.tcpConnections.view(),
                self.udpConnections.view(),
                self.sessions@,
                h,
            )
    }

    /// A registry with room for `connectionsLimit` TCP streams and
    /// `playersLimit` players, before either reactor has reported in.
    pub fn new(connectionsLimit: usize, playersLimit: usize, now: i64) -> (r: Server)
        requires
            playersLimit <= HANDLE_SPACE,
        ensures
            r.wf(),
            r.state == ServerState::Initialization(0),
            r.tcpConnections.view() == Map::<int, TCPConnection>::empty(),
            r.tcpConnections.capacity() == connectionsLimit,
            r.udpConnections.view() == Map::<int, UDPConnection>::empty(),
            r.players.view() == Map::<int, Player>::empty(),
            r.sessions@ == Seq::new(playersLimit as nat, |i: int| 0u64),
    {
        let mut sessions: Vec<u64> = Vec::new();
        let mut i: usize = 0;
        while i < playersLimit
            invariant
                i <= playersLimit,
                sessions@ == Seq::new(i as nat, |k: int| 0u64),
            decreases playersLimit - i,
        {
            sessions.push(0);
            i = i + 1;
            assert(sessions@ =~= Seq::new(i as nat, |k: int| 0u64));
        }
        Server {
            state: ServerState::Initialization(0),
            tcpConnections: SlotTable::with_capacity(connectionsLimit),
            udpConnections: SlotTable::with_capacity(playersLimit),
            players: SlotTable::with_capacity(playersLimit),
            sessions,
            disconnectTCPConnectionsList: Vec::new(),
            disconnectUDPConnectionsList: Vec::new(),
            disconnectPlayersList: Vec::new(),
            tcpTickTime: now,
            udpTickTime: now,
            disconnectLog: Vec::new(),
        }
    }

    // -----------------------------------------------------------------------
    // The state machine of the server as a whole.

    /// A reactor reports that it is ready: the first moves the server to
    /// `Initialization(1)`, the second to `Processing`. Says whether the
    /// reactor is to go on; it is not if an error or a shutdown came first.
    pub fn reportReady(&mut self) -> (r: bool)
        ensures
            final(self).state == match old(self).state {
                ServerState::Initialization(0) => ServerState::Initialization(1),
                ServerState::Initialization(1) => ServerState::Processing,
                s => s,
            },
            r == (old(self).state == ServerState::Initialization(0) || old(self).state
                == ServerState::Initialization(1) || old(self).state == ServerState::Processing),
            final(self).tcpConnections == old(self).tcpConnections,
            final(self).udpConnections == old(self).udpConnections,
            final(self).players == old(self).players,
            final(self).sessions == old(self).sessions,
    {
        match self.state {
            ServerState::Initialization(0) => {
                self.state = ServerState::Initialization(1);
                true
            },
            ServerState::Initialization(1) => {
                self.state = ServerState::Processing;
                true
            },
            ServerState::Processing => true,
            _ => false,
        }
    }

    /// A reactor failed: the server records which one.
    pub fn reportError(&mut self, source: DisconnectionSource)
        requires
            source != DisconnectionSource::Player,
        ensures
            final(self).state == (if source == DisconnectionSource::TCP {
                ServerState::TCPError
            } else {
                ServerState::UDPError
            }),
            final(self).tcpConnections == old(self).tcpConnections,
            final(self).udpConnections == old(self).udpConnections,
            final(self).players == old(self).players,
            final(self).sessions == old(self).sessions,
    {
        if source == DisconnectionSource::TCP {
            self.state = ServerState::TCPError;
        } else {
            self.state = ServerState::UDPError;
        }
    }

    /// Starts the shutdown, once: only a processing server moves to
    /// `Shutdown`, and then this says so.
    pub fn stop(&mut self) -> (r: bool)
        ensures
            r == (old(self).state == ServerState::Processing),
            final(self).state == (if r {
                ServerState::Shutdown
            } else {
                old(self).state
            }),
            final(self).tcpConnections == old(self).tcpConnections,
            final(self).udpConnections == old(self).udpConnections,
            final(self).players == old(self).players,
            final(self).sessions == old(self).sessions,
    {
        if self.state == ServerState::Processing {
            self.state = ServerState::Shutdown;
            true
        } else {
            false
        }
    }

    /// How a reactor whose loop ended leaves: whether it sends farewells,
    /// and whether it is the one to stop the server. A reactor whose loop
    /// failed does neither the first nor leaves the second to the other; on
    /// a shutdown it says farewell; after the other reactor's error it does
    /// neither.
    pub fn shutdownPlan(&self, source: DisconnectionSource, failed: bool) -> (r: (bool, bool))
        requires
            source != DisconnectionSource::Player,
        ensures
            r == (if failed {
                (false, true)
            } else if self.state == ServerState::Shutdown {
                (true, false)
            } else if (source == DisconnectionSource::TCP && self.state == ServerState::UDPError)
                || (source == DisconnectionSource::UDP && self.state == ServerState::TCPError) {
                (false, false)
            } else {
                (false, true)
            }),
    {
        if failed {
            (false, true)
        } else if self.state == ServerState::Shutdown {
            (true, false)
        } else if (source == DisconnectionSource::TCP && self.state == ServerState::UDPError) || (
        source == DisconnectionSource::UDP && self.state == ServerState::TCPError) {
            (false, false)
        } else {
            (false, true)
        }
    }

    // -----------------------------------------------------------------------
    // Access by handle.

    pub fn isTCPConnectionActive(&self, h: usize) -> (r: bool)
        ensures
            r == (self.tcpConnections.view().contains_key(h as int)
                && self.tcpConnections.view()[h as int].isActive),
    {
        match self.tcpConnections.get(h) {
            Some(c) => c.isActive,
            None => false,
        }
    }

    pub fn getSafeTCPConnection(&self, h: usize) -> (r: Option<&TCPConnection>)
        ensures
            r is Some == self.tcpConnections.view().contains_key(h as int),
            r matches Some(c) ==> *c == self.tcpConnections.view()[h as int],
    {
        self.tcpConnections.get(h)
    }

    pub fn getSafeUDPConnection(&self, h: usize) -> (r: Option<&UDPConnection>)
        ensures
            r is Some == self.udpConnections.view().contains_key(h as int),
            r matches Some(c) ==> *c == self.udpConnections.view()[h as int],
    {
        self.udpConnections.get(h)
    }

    pub fn getSafePlayer(&self, h: usize) -> (r: Option<&Player>)
        ensures
            r is Some == self.players.view().contains_key(h as int),
            r matches Some(p) ==> *p == self.players.view()[h as int],
    {
        self.players.get(h)
    }

    // -----------------------------------------------------------------------
    // Disconnects across tables.

    /// Marks the UDP session of `h`, if there is one, for removal; its
    /// player, if any, is no longer active.
    fn tryDisconnectUDPConnection(&mut self, h: usize, reason: DisconnectionReason)
        requires
            old(self).wf(),
            !old(self).player_active(h as int),
        ensures
            final(self).wf(),
            final(self).udpConnections.view().dom() == old(self).udpConnections.view().dom(),
            old(self).udpConnections.view().contains_key(h as int) ==> final(self).udpConnections.view()[h as int].shouldReset,
            forall|k: int|
                k != h && #[trigger] old(self).udpConnections.view().contains_key(k) ==> final(self).udpConnections.view()[k] == old(self).udpConnections.view()[k],
            final(self).tcpConnections == old(self).tcpConnections,
            final(self).players == old(self).players,
            final(self).sessions == old(self).sessions,
            final(self).state == old(self).state,
            final(self).disconnectTCPConnectionsList == old(self).disconnectTCPConnectionsList,
            final(self).disconnectUDPConnectionsList == old(self).disconnectUDPConnectionsList,
            final(self).disconnectPlayersList == old(self).disconnectPlayersList,
            final(self).tcpTickTime == old(self).tcpTickTime,
            final(self).udpTickTime == old(self).udpTickTime,
            final(self).disconnectLog == old(self).disconnectLog,
    {
        if let Some(mut c) = self.udpConnections.take(h) {
            c._disconnect(reason);
            self.udpConnections.insert_at(h, c);
            assert(self.udpConnections.view().dom() =~= old(self).udpConnections.view().dom());
        }
        assert forall|k: int| #[trigger] linked(self.players.view(), self.tcpConnections.view(), self.udpConnections.view(), self.sessions@, k) by {
            assert(old(self).links_at(k));
        }
    }

    /// Marks the TCP stream of `h`, if there is one, disconnected, without
    /// passing the disconnect on; its player, if any, is no longer active.
    fn tryDisconnectTCPConnection(&mut self, h: usize, reason: DisconnectionReason)
        requires
            old(self).wf(),
            !old(self).player_active(h as int),
        ensures
            final(self).wf(),
            final(self).tcpConnections.view().dom() == old(self).tcpConnections.view().dom(),
            old(self).tcpConnections.view().contains_key(h as int) ==> !final(self).tcpConnections.view()[h as int].isActive,
            forall|k: int|
                k != h && #[trigger] old(self).tcpConnections.view().contains_key(k) ==> final(self).tcpConnections.view()[k] == old(self).tcpConnections.view()[k],
            final(self).udpConnections == old(self).udpConnections,
            final(self).players == old(self).players,
            final(self).sessions == old(self).sessions,
            final(self).state == old(self).state,
            final(self).disconnectTCPConnectionsList == old(self).disconnectTCPConnectionsList,
            final(self).disconnectUDPConnectionsList == old(self).disconnectUDPConnectionsList,
            final(self).disconnectPlayersList == old(self).disconnectPlayersList,
            final(self).tcpTickTime == old(self).tcpTickTime,
            final(self).udpTickTime == old(self).udpTickTime,
            final(self).disconnectLog == old(self).disconnectLog,
    {
        if let Some(mut c) = self.tcpConnections.take(h) {
            c._disconnect(reason);
            self.tcpConnections.insert_at(h, c);
            assert(self.tcpConnections.view().dom() =~= old(self).tcpConnections.view().dom());
        }
        assert forall|k: int| #[trigger] linked(self.players.view(), self.tcpConnections.view(), self.udpConnections.view(), self.sessions@, k) by {
            assert(old(self).links_at(k));
        }
    }

    /// Marks the player of `h`, if there is one, inactive, without passing
    /// the disconnect on. The links may be broken at `h` on entry: once the
    /// player is inactive they hold everywhere.
    fn tryDisconnectPlayer(&mut self, h: usize, reason: DisconnectionReason)
        requires
            old(self).tables_wf(),
            old(self).links_except(h as int),
        ensures
            final(self).wf(),
            !final(self).player_active(h as int),
            final(self).players.view().dom() == old(self).players.view().dom(),
            old(self).players.view().contains_key(h as int) ==> !final(self).players.view()[h as int].isActive,
            forall|k: int|
                k != h && #[trigger] old(self).players.view().contains_key(k) ==> final(self).players.view()[k] == old(self).players.view()[k],
            final(self).tcpConnections == old(self).tcpConnections,
            final(self).udpConnections == old(self).udpConnections,
            final(self).sessions == old(self).sessions,
            final(self).state == old(self).state,
            final(self).disconnectTCPConnectionsList == old(self).disconnectTCPConnectionsList,
            final(self).disconnectUDPConnectionsList == old(self).disconnectUDPConnectionsList,
            final(self).disconnectPlayersList == old(self).disconnectPlayersList,
            final(self).tcpTickTime == old(self).tcpTickTime,
            final(self).udpTickTime == old(self).udpTickTime,
            final(self).disconnectLog == old(self).disconnectLog,
    {
        if let Some(mut p) = self.players.take(h) {
            p._disconnect(reason);
            self.players.insert_at(h, p);
            assert(self.players.view().dom() =~= old(self).players.view().dom());
        }
        assert forall|k: int| #[trigger] linked(self.players.view(), self.tcpConnections.view(), self.udpConnections.view(), self.sessions@, k) by {
            if k != h {
                assert(old(self).links_at(k));
            }
        }
    }

    /// Disconnects the TCP stream of `h` and, if it was active, its player
    /// and its UDP session too. A stream already disconnecting is reset at
    /// once by a reason that resets, and otherwise left as it is.
    pub fn disconnectTCPConnection(&mut self, h: usize, reason: DisconnectionReason)
        requires
            old(self).wf(),
        ensures
            final(self).wf(),
            tcp_disconnect_outcome(*old(self), h as int, reason, *final(self)),
    {
        if !self.tcpConnections.contains(h) {
            return;
        }
        if !self.isTCPConnectionActive(h) {
            if reason.is_reset() {
                let mut c = self.tcpConnections.take(h).unwrap();
                c.disconnect(reason);
                self.tcpConnections.insert_at(h, c);
                assert(self.tcpConnections.view().dom() =~= old(self).tcpConnections.view().dom());
                assert(old(self).links_at(h as int));
                assert forall|k: int| #[trigger] linked(self.players.view(), self.tcpConnections.view(), self.udpConnections.view(), self.sessions@, k) by {
                    assert(old(self).links_at(k));
                }
            }
            return;
        }
        let copy = reason.duplicate();
        let copy2 = reason.duplicate();
        let copy3 = reason.duplicate();
        self.tryDisconnectPlayer(h, copy2);
        let ghost mid = *self;
        let mut c = self.tcpConnections.take(h).unwrap();
        c.disconnect(reason);
        self.tcpConnections.insert_at(h, c);
        assert(self.tcpConnections.view().dom() =~= old(self).tcpConnections.view().dom());
        assert forall|k: int| #[trigger] linked(self.players.view(), self.tcpConnections.view(), self.udpConnections.view(), self.sessions@, k) by {
            assert(mid.links_at(k));
        }
        self.tryDisconnectUDPConnection(h, copy);
        self.disconnectLog.push((h, DisconnectionSource::TCP, copy3));
    }

    /// Disconnects the player of `h` and, if it was active, its TCP stream
    /// and UDP session too; a player already inactive is left as it is, so
    /// a second call passes nothing on.
    pub fn disconnectPlayer(&mut self, h: usize, reason: DisconnectionReason)
        requires
            old(self).wf(),
        ensures
            final(self).wf(),
            final(self).tcpConnections.view().dom() == old(self).tcpConnections.view().dom(),
            final(self).udpConnections.view().dom() == old(self).udpConnections.view().dom(),
            final(self).players.view().dom() == old(self).players.view().dom(),
            final(self).sessions == old(self).sessions,
            final(self).state == old(self).state,
            !old(self).player_active(h as int) ==> *final(self) == *old(self),
            forall|k: int|
                k != h && #[trigger] old(self).players.view().contains_key(k) ==> final(self).players.view()[k] == old(self).players.view()[k],
            forall|k: int|
                k != h && #[trigger] old(self).udpConnections.view().contains_key(k) ==> final(self).udpConnections.view()[k] == old(self).udpConnections.view()[k],
            old(self).player_active(h as int) ==> {
                &&& final(self).disconnectLog@ == old(self).disconnectLog@.push(
                    (h, DisconnectionSource::Player, reason),
                )
                &&& !final(self).players.view()[h as int].isActive
                &&& old(self).tcpConnections.view().contains_key(h as int) ==> !final(self).tcpConnections.view()[h as int].isActive
                &&& old(self).udpConnections.view().contains_key(h as int) ==> final(self).udpConnections.view()[h as int].shouldReset
            },
            final(self).disconnectTCPConnectionsList == old(self).disconnectTCPConnectionsList,
            final(self).disconnectUDPConnectionsList == old(self).disconnectUDPConnectionsList,
            final(self).disconnectPlayersList == old(self).disconnectPlayersList,
            final(self).tcpTickTime == old(self).tcpTickTime,
            final(self).udpTickTime == old(self).udpTickTime,
    {
        match self.players.get(h) {
            Some(p) => {
                if !p.isActive {
                    return;
                }
            },
            None => {
                return;
            },
        }
        let copy = reason.duplicate();
        let copy2 = reason.duplicate();
        let copy3 = reason.duplicate();
        self.tryDisconnectPlayer(h, reason);
        self.tryDisconnectTCPConnection(h, copy);
        self.tryDisconnectUDPConnection(h, copy2);
        self.disconnectLog.push((h, DisconnectionSource::Player, copy3));
    }

    /// Disconnects the UDP session of `h` and, with it, its player and its
    /// TCP stream.
    pub fn disconnectUDPConnection(&mut self, h: usize, reason: DisconnectionReason)
        requires
            old(self).wf(),
        ensures
            final(self).wf(),
            final(self).tcpConnections.view().dom() == old(self).tcpConnections.view().dom(),
            final(self).udpConnections.view().dom() == old(self).udpConnections.view().dom(),
            final(self).players.view().dom() == old(self).players.view().dom(),
            final(self).sessions == old(self).sessions,
            !old(self).udpConnections.view().contains_key(h as int) ==> *final(self) == *old(self),
            forall|k: int|
                k != h && #[trigger] old(self).players.view().contains_key(k) ==> final(self).players.view()[k] == old(self).players.view()[k],
            forall|k: int|
                k != h && #[trigger] old(self).udpConnections.view().contains_key(k) ==> final(self).udpConnections.view()[k] == old(self).udpConnections.view()[k],
            old(self).udpConnections.view().contains_key(h as int) ==> {
                &&& final(self).disconnectLog@ == old(self).disconnectLog@.push(
                    (h, DisconnectionSource::UDP, reason),
                )
                &&& final(self).udpConnections.view()[h as int].shouldReset
                &&& !final(self).player_active(h as int)
                &&& old(self).tcpConnections.view().contains_key(h as int) ==> !final(self).tcpConnections.view()[h as int].isActive
            },
            final(self).state == old(self).state,
            final(self).disconnectTCPConnectionsList == old(self).disconnectTCPConnectionsList,
            final(self).disconnectUDPConnectionsList == old(self).disconnectUDPConnectionsList,
            final(self).disconnectPlayersList == old(self).disconnectPlayersList,
            final(self).tcpTickTime == old(self).tcpTickTime,
            final(self).udpTickTime == old(self).udpTickTime,
    {
        if !self.udpConnections.contains(h) {
            return;
        }
        let copy = reason.duplicate();
        let copy2 = reason.duplicate();
        let copy3 = reason.duplicate();
        self.tryDisconnectPlayer(h, reason);
        self.tryDisconnectTCPConnection(h, copy);
        self.tryDisconnectUDPConnection(h, copy2);
        self.disconnectLog.push((h, DisconnectionSource::UDP, copy3));
    }

    /// Hands out the disconnects recorded so far, oldest first, and forgets
    /// them.
    pub fn takeDisconnectLog(&mut self) -> (r: Vec<(usize, DisconnectionSource, DisconnectionReason)>)
        requires
            old(self).wf(),
        ensures
            final(self).wf(),
            r@ == old(self).disconnectLog@,
            final(self).disconnectLog@.len() == 0,
            *final(self) == (Server { disconnectLog: final(self).disconnectLog, ..*old(self) }),
    {
        let mut log: Vec<(usize, DisconnectionSource, DisconnectionReason)> = Vec::new();
        core::mem::swap(&mut log, &mut self.disconnectLog);
        log
    }

    /// Leaves a disconnect of the TCP stream of `h` for the TCP reactor's
    /// next tick.
    pub fn queueDisconnectTCPConnection(&mut self, h: usize, reason: DisconnectionReason)
        ensures
            final(self).disconnectTCPConnectionsList@ == old(self).disconnectTCPConnectionsList@.push((h, reason)),
            final(self).tcpConnections == old(self).tcpConnections,
            final(self).udpConnections == old(self).udpConnections,
            final(self).players == old(self).players,
            final(self).sessions == old(self).sessions,
            final(self).state == old(self).state,
    {
        self.disconnectTCPConnectionsList.push((h, reason));
    }

    /// Leaves a disconnect of the UDP session of `h` for the UDP reactor's
    /// next tick.
    pub fn queueDisconnectUDPConnection(&mut self, h: usize, reason: DisconnectionReason)
        ensures
            final(self).disconnectUDPConnectionsList@ == old(self).disconnectUDPConnectionsList@.push((h, reason)),
            final(self).tcpConnections == old(self).tcpConnections,
            final(self).udpConnections == old(self).udpConnections,
            final(self).players == old(self).players,
            final(self).sessions == old(self).sessions,
            final(self).state == old(self).state,
    {
        self.disconnectUDPConnectionsList.push((h, reason));
    }

    /// Leaves a disconnect of the player of `h` for a later tick.
    pub fn queueDisconnectPlayer(&mut self, h: usize, reason: DisconnectionReason)
        ensures
            final(self).disconnectPlayersList@ == old(self).disconnectPlayersList@.push(
                (h, reason),
            ),
            final(self).tcpConnections == old(self).tcpConnections,
            final(self).udpConnections == old(self).udpConnections,
            final(self).players == old(self).players,
            final(self).sessions == old(self).sessions,
            final(self).state == old(self).state,
    {
        self.disconnectPlayersList.push((h, reason));
    }

    /// Applies the queued disconnects of TCP streams, passing each on, and
    /// empties the queue.
    pub fn disconnectTCPConnectionsFromList(&mut self)
        requires
            old(self).wf(),
        ensures
            final(self).wf(),
            exists|trace: Seq<Server>| #[trigger] tcp_queue_applied(
                *old(self),
                old(self).disconnectTCPConnectionsList@,
                trace,
                *final(self),
            ),
            final(self).disconnectTCPConnectionsList@.len() == 0,
            final(self).tcpConnections.view().dom() == old(self).tcpConnections.view().dom(),
            final(self).udpConnections.view().dom() == old(self).udpConnections.view().dom(),
            final(self).players.view().dom() == old(self).players.view().dom(),
            forall|k: int|
                0 <= k < old(self).disconnectTCPConnectionsList@.len() && #[trigger] old(
                    self,
                ).tcpConnections.view().contains_key(old(self).disconnectTCPConnectionsList@[k].0 as int) ==> !final(self).tcpConnections.view()[old(self).disconnectTCPConnectionsList@[k].0 as int].isActive,
            final(self).sessions == old(self).sessions,
            final(self).state == old(self).state,
            final(self).tcpTickTime == old(self).tcpTickTime,
            final(self).udpTickTime == old(self).udpTickTime,
    {
        let mut list: Vec<(usize, DisconnectionReason)> = Vec::new();
        core::mem::swap(&mut list, &mut self.disconnectTCPConnectionsList);
        let ghost pending = list@;
        let ghost mut trace: Seq<Server> = seq![*self];
        proof {
            assert(trace[0] == (Server { disconnectTCPConnectionsList: trace[0].disconnectTCPConnectionsList, ..*old(self) }));
        }
        let mut i: usize = 0;
        while i < list.len()
            invariant
                self.wf(),
                list@ == pending,
                pending == old(self).disconnectTCPConnectionsList@,
                i <= list@.len(),
                trace.len() == i + 1,
                trace[0] == (Server { disconnectTCPConnectionsList: trace[0].disconnectTCPConnectionsList, ..*old(self) }),
                trace[0].disconnectTCPConnectionsList@.len() == 0,
                forall|j: int| 0 <= j < i ==> #[trigger] tcp_disconnect_outcome(
                    trace[j],
                    pending[j].0 as int,
                    pending[j].1,
                    trace[j + 1],
                ),
                trace[i as int] == *self,
                self.disconnectTCPConnectionsList@.len() == 0,
                self.tcpConnections.view().dom() == old(self).tcpConnections.view().dom(),
                self.udpConnections.view().dom() == old(self).udpConnections.view().dom(),
                self.players.view().dom() == old(self).players.view().dom(),
                forall|k: int|
                    0 <= k < i && #[trigger] old(self).tcpConnections.view().contains_key(
                        pending[k].0 as int,
                    ) ==> !self.tcpConnections.view()[pending[k].0 as int].isActive,
                self.sessions == old(self).sessions,
                self.state == old(self).state,
                self.tcpTickTime == old(self).tcpTickTime,
                self.udpTickTime == old(self).udpTickTime,
            decreases list@.len() - i,
        {
            let h = list[i].0;
            let reason = list[i].1.duplicate();
            let ghost before = trace;
            self.disconnectTCPConnection(h, reason);
            proof {
                trace = trace.push(*self);
                assert forall|j: int| 0 <= j < i + 1 implies #[trigger] tcp_disconnect_outcome(
                    trace[j],
                    pending[j].0 as int,
                    pending[j].1,
                    trace[j + 1],
                ) by {
                    if j < i {
                        assert(trace[j] == before[j] && trace[j + 1] == before[j + 1]);
                    }
                }
            }
            i = i + 1;
        }
        proof {
            assert(tcp_queue_applied(*old(self), pending, trace, *self));
        }
    }

    /// Applies the queued disconnects of UDP sessions, passing each on, and
    /// empties the queue.
    pub fn disconnectUDPConnectionsFromList(&mut self)
        requires
            old(self).wf(),
        ensures
            final(self).wf(),
            final(self).disconnectUDPConnectionsList@.len() == 0,
            final(self).tcpConnections.view().dom() == old(self).tcpConnections.view().dom(),
            final(self).udpConnections.view().dom() == old(self).udpConnections.view().dom(),
            final(self).players.view().dom() == old(self).players.view().dom(),
            forall|k: int|
                0 <= k < old(self).disconnectUDPConnectionsList@.len() && #[trigger] old(
                    self,
                ).udpConnections.view().contains_key(old(self).disconnectUDPConnectionsList@[k].0 as int) ==> final(self).udpConnections.view()[old(self).disconnectUDPConnectionsList@[k].0 as int].shouldReset,
            final(self).sessions == old(self).sessions,
            final(self).state == old(self).state,
            final(self).tcpTickTime == old(self).tcpTickTime,
            final(self).udpTickTime == old(self).udpTickTime,
    {
        let mut list: Vec<(usize, DisconnectionReason)> = Vec::new();
        core::mem::swap(&mut list, &mut self.disconnectUDPConnectionsList);
        let ghost pending = list@;
        let mut i: usize = 0;
        while i < list.len()
            invariant
                self.wf(),
                list@ == pending,
                pending == old(self).disconnectUDPConnectionsList@,
                i <= list@.len(),
                self.disconnectUDPConnectionsList@.len() == 0,
                self.tcpConnections.view().dom() == old(self).tcpConnections.view().dom(),
                self.udpConnections.view().dom() == old(self).udpConnections.view().dom(),
                self.players.view().dom() == old(self).players.view().dom(),
                forall|k: int|
                    0 <= k < i && #[trigger] old(self).udpConnections.view().contains_key(
                        pending[k].0 as int,
                    ) ==> self.udpConnections.view()[pending[k].0 as int].shouldReset,
                self.sessions == old(self).sessions,
                self.state == old(self).state,
                self.tcpTickTime == old(self).tcpTickTime,
                self.udpTickTime == old(self).udpTickTime,
            decreases list@.len() - i,
        {
            let h = list[i].0;
            let reason = list[i].1.duplicate();
            self.disconnectUDPConnection(h, reason);
            i = i + 1;
        }
    }

    /// Applies the queued disconnects of players, passing each on, and empties
    /// the queue.
    pub fn disconnectPlayersFromList(&mut self)
        requires
            old(self).wf(),
        ensures
            final(self).wf(),
            final(self).disconnectPlayersList@.len() == 0,
            final(self).tcpConnections.view().dom() == old(self).tcpConnections.view().dom(),
            final(self).udpConnections.view().dom() == old(self).udpConnections.view().dom(),
            final(self).players.view().dom() == old(self).players.view().dom(),
            forall|k: int|
                0 <= k < old(self).disconnectPlayersList@.len() && #[trigger] old(
                    self,
                ).players.view().contains_key(old(self).disconnectPlayersList@[k].0 as int) ==> !final(self).players.view()[old(self).disconnectPlayersList@[k].0 as int].isActive,
            final(self).sessions == old(self).sessions,
            final(self).state == old(self).state,
            final(self).tcpTickTime == old(self).tcpTickTime,
            final(self).udpTickTime == old(self).udpTickTime,
    {
        let mut list: Vec<(usize, DisconnectionReason)> = Vec::new();
        core::mem::swap(&mut list, &mut self.disconnectPlayersList);
        let ghost pending = list@;
        let mut i: usize = 0;
        while i < list.len()
            invariant
                self.wf(),
                list@ == pending,
                pending == old(self).disconnectPlayersList@,
                i <= list@.len(),
                self.disconnectPlayersList@.len() == 0,
                self.tcpConnections.view().dom() == old(self).tcpConnections.view().dom(),
                self.udpConnections.view().dom() == old(self).udpConnections.view().dom(),
                self.players.view().dom() == old(self).players.view().dom(),
                forall|k: int|
                    0 <= k < i && #[trigger] old(self).players.view().contains_key(
                        pending[k].0 as int,
                    ) ==> !self.players.view()[pending[k].0 as int].isActive,
                self.sessions == old(self).sessions,
                self.state == old(self).state,
                self.tcpTickTime == old(self).tcpTickTime,
                self.udpTickTime == old(self).udpTickTime,
            decreases list@.len() - i,
        {
            let h = list[i].0;
            let reason = list[i].1.duplicate();
            self.disconnectPlayer(h, reason);
            i = i + 1;
        }
    }

}

impl Server {
    // -----------------------------------------------------------------------
    // The TCP side.

    /// Takes in a newly accepted stream at the lowest free handle; `None`
    /// when the table is full.
    pub fn processAccept(&mut self, now: i64) -> (r: Option<usize>)
        requires
            old(self).wf(),
        ensures
            final(self).wf(),
            final(self).udpConnections == old(self).udpConnections,
            final(self).players == old(self).players,
            final(self).sessions == old(self).sessions,
            final(self).state == old(self).state,
            match r {
                Some(h) => {
                    &&& !old(self).tcpConnections.view().contains_key(h as int)
                    &&& final(self).tcpConnections.view() == old(self).tcpConnections.view().insert(
                        h as int,
                        final(self).tcpConnections.view()[h as int],
                    )
                    &&& final(self).tcpConnections.view()[h as int].isActive
                    &&& final(self).tcpConnections.view()[h as int].stage
                        == TCPConnectionStage::WaitingSessionID(
                        crate::tcp_connection::deadline(
                            now,
                            crate::tcp_connection::STATE_WAITING_SESSIONID_TIMEOUT,
                        ),
                    )
                },
                None => final(self).tcpConnections == old(self).tcpConnections && forall|h: int|
                    0 <= h < old(self).tcpConnections.capacity() ==> old(self).tcpConnections.view().contains_key(h),
            },
    {
        match self.tcpConnections.firstVacant() {
            Some(h) => {
                self.tcpConnections.insert_at(h, TCPConnection::new(h, now));
                proof {
                    lemma_server_frame(*old(self), *self);
                }
                Some(h)
            },
            None => None,
        }
    }

    /// Handles one payload that came over the stream of `h`: a client's
    /// desire or error disconnects; any other packet goes to the player
    /// once the connection plays, and to the connection's handshake before.
    /// Gives back the identity request to send, if the packet started one.
    pub fn processMessage(&mut self, h: usize, message: &Vec<u8>, now: i64) -> (r: Result<
        Option<Vec<u8>>,
        String,
    >)
        requires
            old(self).wf(),
        ensures
            final(self).wf(),
            final(self).tcpConnections.view().dom() == old(self).tcpConnections.view().dom(),
            final(self).udpConnections.view().dom() == old(self).udpConnections.view().dom(),
            final(self).players.view().dom() == old(self).players.view().dom(),
            final(self).sessions == old(self).sessions,
            final(self).state == old(self).state,
            crate::packet::decode_client_tcp(message@) is None ==> (r matches Err(e) && e@
                == "deserialization error"@ && *final(self) == *old(self)),
            r matches Ok(Some(req)) ==> is_identity_request(req@),
            r is Err ==> final(self).tcpConnections.view() == old(self).tcpConnections.view()
                && final(self).players.view() == old(self).players.view()
                && final(self).udpConnections.view() == old(self).udpConnections.view(),
            ({
                let tcp = old(self).tcpConnections.view();
                let after = final(self).tcpConnections.view();
                match crate::packet::decode_client_tcp(message@) {
                    Some(ClientTcpMsg::ClientDesire(m)) => r matches Ok(None) && (forall|k: int|
                        k != h && #[trigger] tcp.contains_key(k) ==> after[k] == tcp[k]) && (tcp.contains_key(
                        h as int,
                    ) ==> after[h as int].queued() == tcp[h as int].queued()) && (tcp.contains_key(
                        h as int,
                    ) && tcp[h as int].isActive ==> (!after[h as int].isActive
                        && after[h as int].shouldReset && (after[h as int].stage matches TCPConnectionStage::Disconnecting(
                        DisconnectionReason::ClientDesire(x),
                    ) && x@ == m))),
                    Some(ClientTcpMsg::ClientError(m)) => r matches Ok(None) && (forall|k: int|
                        k != h && #[trigger] tcp.contains_key(k) ==> after[k] == tcp[k]) && (tcp.contains_key(
                        h as int,
                    ) ==> after[h as int].queued() == tcp[h as int].queued()) && (tcp.contains_key(
                        h as int,
                    ) && tcp[h as int].isActive ==> (!after[h as int].isActive
                        && after[h as int].shouldReset && (after[h as int].stage matches TCPConnectionStage::Disconnecting(
                        DisconnectionReason::ClientError(x),
                    ) && x@ == m))),
                    Some(ClientTcpMsg::SessionID(sid)) => (tcp.contains_key(h as int) && tcp[h as int].stage is Playing
                        ==> (r matches Ok(None) && final(self).tcpConnections == old(self).tcpConnections
                        && final(self).players.view() == old(self).players.view()
                        && final(self).udpConnections == old(self).udpConnections)) && (tcp.contains_key(h as int) && !(
                    tcp[h as int].stage is Playing) ==> match tcp[h as int].stage {
                        TCPConnectionStage::WaitingSessionID(_) => if sid.len() > 0 {
                            &&& r matches Ok(Some(req)) && req@ == identity_request(sid)
                            &&& after[h as int].isActive == tcp[h as int].isActive
                            &&& after[h as int].stage
                                == TCPConnectionStage::LoadingPlayerDataFromMasterServer(
                                crate::tcp_connection::deadline(
                                    now,
                                    crate::tcp_connection::STATE_LOADING_PLAYER_DATA_FROM_MASTER_SERVER_TIMEOUT,
                                ),
                            )
                        } else {
                            r matches Err(e) && e@ == "no sessionID"@
                        },
                        _ => r matches Err(e) && e@ == "unexpected ClientToServerTCPPacket::Session"@,
                    }),
                    None => true,
                }
            }),
    {
        let packet = match ClientToServerTCPPacket::unpack(message) {
            Ok(p) => p,
            Err(e) => {
                return Err(e.to_owned());
            },
        };
        match packet {
            ClientToServerTCPPacket::ClientDesire(msg) => {
                self.disconnectTCPConnection(h, DisconnectionReason::ClientDesire(msg));
                Ok(None)
            },
            ClientToServerTCPPacket::ClientError(msg) => {
                self.disconnectTCPConnection(h, DisconnectionReason::ClientError(msg));
                Ok(None)
            },
            _ => {
                let playing = match self.tcpConnections.get(h) {
                    Some(c) => matches!(c.stage, TCPConnectionStage::Playing),
                    None => {
                        return Ok(None);
                    },
                };
                if playing {
                    match self.players.take(h) {
                        Some(mut p) => {
                            let r = p.processMessage(&packet);
                            self.players.insert_at(h, p);
                            assert(self.players.view().dom() =~= old(self).players.view().dom());
                            proof {
                                lemma_server_frame(*old(self), *self);
                            }
                            match r {
                                Ok(()) => Ok(None),
                                Err(e) => Err(e),
                            }
                        },
                        None => {
                            assert(self.players.view() =~= old(self).players.view());
                            proof {
                                lemma_server_frame(*old(self), *self);
                            }
                            Ok(None)
                        },
                    }
                } else {
                    match self.tcpConnections.take(h) {
                        Some(mut c) => {
                            let r = c.processPacket(&packet, now);
                            self.tcpConnections.insert_at(h, c);
                            assert(self.tcpConnections.view().dom() =~= old(self).tcpConnections.view().dom());
                            proof {
                                lemma_server_frame(*old(self), *self);
                            }
                            r
                        },
                        None => {
                            assert(self.tcpConnections.view() =~= old(self).tcpConnections.view());
                            proof {
                                lemma_server_frame(*old(self), *self);
                            }
                            Ok(None)
                        },
                    }
                }
            },
        }
    }

    /// Takes a chunk read from the active stream of `h` and gives back the
    /// payloads of the frames it completes, in order, for `handleTCPFrame`.
    /// A length over the limit is a fatal protocol error: the stream is reset
    /// at once and nothing is handed out. Otherwise the stream is to be
    /// watched anew. An inactive or unknown stream reads nothing.
    pub fn readTCPBytes(&mut self, h: usize, chunk: &[u8]) -> (r: Vec<Vec<u8>>)
        requires
            old(self).wf(),
        ensures
            final(self).wf(),
            final(self).tcpConnections.view().dom() == old(self).tcpConnections.view().dom(),
            final(self).udpConnections.view().dom() == old(self).udpConnections.view().dom(),
            final(self).players.view().dom() == old(self).players.view().dom(),
            final(self).sessions == old(self).sessions,
            final(self).state == old(self).state,
            !(old(self).tcpConnections.view().contains_key(h as int) && old(
                self,
            ).tcpConnections.view()[h as int].isActive) ==> *final(self) == *old(self)
                && r@.len() == 0,
            old(self).tcpConnections.view().contains_key(h as int) && old(self).tcpConnections.view()[h as int].isActive ==> ({
                let c = old(self).tcpConnections.view()[h as int];
                let after = final(self).tcpConnections.view()[h as int];
                let f = feed(c.reading().0, c.reading().1, chunk@, c.message_limit() as nat);
                &&& after.reading() == (f.1, f.2)
                &&& forall|k: int| k != h && #[trigger] old(self).tcpConnections.view().contains_key(k)
                    ==> final(self).tcpConnections.view()[k] == old(self).tcpConnections.view()[k]
                &&& if f.2 {
                    &&& r@.len() == 0
                    &&& !after.isActive
                    &&& after.shouldReset
                    &&& after.stage matches TCPConnectionStage::Disconnecting(
                        DisconnectionReason::FatalError(m),
                    ) && m@ == "Message length is too large"@
                    &&& after.queued() == c.queued()
                    &&& !final(self).player_active(h as int)
                    &&& old(self).udpConnections.view().contains_key(h as int) ==> final(self).udpConnections.view()[h as int].shouldReset
                } else {
                    &&& bytes_of(r@) == f.0
                    &&& after.isActive
                    &&& after.shouldReregister
                    &&& !after.shouldReset
                    &&& after.stage == c.stage
                    &&& after.token == c.token
                    &&& after.in_flight() == c.in_flight()
                    &&& after.queued() == c.queued()
                    &&& final(self).players == old(self).players
                    &&& final(self).udpConnections == old(self).udpConnections
                }
            }),
    {
        if !self.isTCPConnectionActive(h) {
            return Vec::new();
        }
        let mut c = self.tcpConnections.take(h).unwrap();
        let result = c.readMessage(chunk);
        match result {
            ReadResult::FatalError(_, e) => {
                self.tcpConnections.insert_at(h, c);
                assert(self.tcpConnections.view().dom() =~= old(self).tcpConnections.view().dom());
                proof {
                    lemma_server_frame(*old(self), *self);
                }
                self.disconnectTCPConnection(h, DisconnectionReason::FatalError(e));
                Vec::new()
            },
            ReadResult::NotReady => {
                c.shouldReregister = true;
                self.tcpConnections.insert_at(h, c);
                assert(self.tcpConnections.view().dom() =~= old(self).tcpConnections.view().dom());
                proof {
                    lemma_server_frame(*old(self), *self);
                }
                let none: Vec<Vec<u8>> = Vec::new();
                assert(bytes_of(none@) =~= Seq::<Seq<u8>>::empty());
                none
            },
            ReadResult::Ready(frames) => {
                c.shouldReregister = true;
                self.tcpConnections.insert_at(h, c);
                assert(self.tcpConnections.view().dom() =~= old(self).tcpConnections.view().dom());
                proof {
                    lemma_server_frame(*old(self), *self);
                }
                frames
            },
        }
    }

    /// Handles one payload that the active stream of `h` delivered, as
    /// `processMessage` does; a payload it refuses disconnects the stream
    /// with a server error, whose text the client receives as farewell.
    /// Gives back the identity request to send, if the payload started one.
    /// An inactive or unknown stream handles nothing.
    pub fn handleTCPFrame(&mut self, h: usize, frame: &Vec<u8>, now: i64) -> (r: Option<Vec<u8>>)
        requires
            old(self).wf(),
        ensures
            final(self).wf(),
            final(self).tcpConnections.view().dom() == old(self).tcpConnections.view().dom(),
            final(self).udpConnections.view().dom() == old(self).udpConnections.view().dom(),
            final(self).players.view().dom() == old(self).players.view().dom(),
            final(self).sessions == old(self).sessions,
            final(self).state == old(self).state,
            r matches Some(req) ==> is_identity_request(req@),
            !(old(self).tcpConnections.view().contains_key(h as int) && old(
                self,
            ).tcpConnections.view()[h as int].isActive) ==> *final(self) == *old(self) && r is None,
            old(self).tcpConnections.view().contains_key(h as int) && old(self).tcpConnections.view()[h as int].isActive ==> ({
                let c = old(self).tcpConnections.view()[h as int];
                let after = final(self).tcpConnections.view()[h as int];
                match crate::packet::decode_client_tcp(frame@) {
                    None => r is None && !after.isActive && after.queued() == seq![
                        wire(ServerTcpMsg::ServerError("deserialization error"@)),
                    ] && (after.stage matches TCPConnectionStage::Disconnecting(
                        DisconnectionReason::ServerError(m),
                    ) && m@ == "deserialization error"@),
                    Some(ClientTcpMsg::ClientDesire(m)) => r is None && !after.isActive
                        && after.shouldReset && after.queued() == c.queued() && (after.stage matches TCPConnectionStage::Disconnecting(
                        DisconnectionReason::ClientDesire(x),
                    ) && x@ == m),
                    Some(ClientTcpMsg::ClientError(m)) => r is None && !after.isActive
                        && after.shouldReset && after.queued() == c.queued() && (after.stage matches TCPConnectionStage::Disconnecting(
                        DisconnectionReason::ClientError(x),
                    ) && x@ == m),
                    Some(ClientTcpMsg::SessionID(sid)) => match c.stage {
                        TCPConnectionStage::Playing => r is None && final(self).tcpConnections
                            == old(self).tcpConnections && final(self).players.view() == old(
                            self,
                        ).players.view(),
                        TCPConnectionStage::WaitingSessionID(_) => if sid.len() > 0 {
                            &&& r matches Some(req) && req@ == identity_request(sid)
                            &&& after.isActive
                            &&& after.stage
                                == TCPConnectionStage::LoadingPlayerDataFromMasterServer(
                                crate::tcp_connection::deadline(
                                    now,
                                    crate::tcp_connection::STATE_LOADING_PLAYER_DATA_FROM_MASTER_SERVER_TIMEOUT,
                                ),
                            )
                        } else {
                            r is None && !after.isActive && after.queued() == seq![
                                wire(ServerTcpMsg::ServerError("no sessionID"@)),
                            ] && (after.stage matches TCPConnectionStage::Disconnecting(
                                DisconnectionReason::ServerError(m),
                            ) && m@ == "no sessionID"@)
                        },
                        _ => r is None && !after.isActive && after.queued() == seq![
                            wire(ServerTcpMsg::ServerError("unexpected ClientToServerTCPPacket::Session"@)),
                        ] && (after.stage matches TCPConnectionStage::Disconnecting(
                            DisconnectionReason::ServerError(m),
                        ) && m@ == "unexpected ClientToServerTCPPacket::Session"@),
                    },
                }
            }),
    {
        if !self.isTCPConnectionActive(h) {
            return None;
        }
        match self.processMessage(h, frame, now) {
            Ok(x) => x,
            Err(e) => {
                self.disconnectTCPConnection(h, DisconnectionReason::ServerError(e));
                None
            },
        }
    }

    /// The next bytes to write to the stream of `h`: the rest of the
    /// message in flight, taking the next queued one when it is done; empty
    /// when nothing is left.
    pub fn tcpOutput(&mut self, h: usize) -> (r: Vec<u8>)
        requires
            old(self).wf(),
            old(self).tcpConnections.view().contains_key(h as int),
        ensures
            final(self).wf(),
            final(self).tcpConnections.view().dom() == old(self).tcpConnections.view().dom(),
            final(self).tcpConnections.view()[h as int].outgoing() == old(self).tcpConnections.view()[h as int].outgoing(),
            r@ == final(self).tcpConnections.view()[h as int].in_flight(),
            r@.len() == 0 <==> old(self).tcpConnections.view()[h as int].outgoing().len() == 0,
            r@ == old(self).tcpConnections.view()[h as int].outgoing().subrange(0, r@.len() as int),
            final(self).tcpConnections.view()[h as int].isActive == old(self).tcpConnections.view()[h as int].isActive,
            final(self).udpConnections == old(self).udpConnections,
            final(self).players == old(self).players,
            final(self).sessions == old(self).sessions,
            final(self).state == old(self).state,
    {
        let mut c = self.tcpConnections.take(h).unwrap();
        c.loadNextMessage();
        let out = vstd::slice::slice_to_vec(c.unwritten());
        proof {
            assert(c.outgoing().subrange(0, out@.len() as int) =~= out@);
        }
        self.tcpConnections.insert_at(h, c);
        assert(self.tcpConnections.view().dom() =~= old(self).tcpConnections.view().dom());
        proof {
            lemma_server_frame(*old(self), *self);
        }
        out
    }

    /// The stream of `h` took the first `n` bytes that `tcpOutput` gave.
    pub fn tcpWrote(&mut self, h: usize, n: usize)
        requires
            old(self).wf(),
            old(self).tcpConnections.view().contains_key(h as int),
            n <= old(self).tcpConnections.view()[h as int].in_flight().len(),
        ensures
            final(self).wf(),
            final(self).tcpConnections.view().dom() == old(self).tcpConnections.view().dom(),
            final(self).tcpConnections.view()[h as int].outgoing() == old(self).tcpConnections.view()[h as int].outgoing().skip(n as int),
            final(self).tcpConnections.view()[h as int].shouldReregister,
            final(self).udpConnections == old(self).udpConnections,
            final(self).players == old(self).players,
            final(self).sessions == old(self).sessions,
            final(self).state == old(self).state,
    {
        let mut c = self.tcpConnections.take(h).unwrap();
        c.wrote(n);
        c.shouldReregister = true;
        self.tcpConnections.insert_at(h, c);
        assert(self.tcpConnections.view().dom() =~= old(self).tcpConnections.view().dom());
        proof {
            lemma_server_frame(*old(self), *self);
        }
    }

    /// Decides, for every stream, how it is to be watched anew (as
    /// `reregistered` says); streams whose farewell went out are marked for
    /// reset instead. Gives back each stream to re-arm with its interest.
    pub fn reregisterConnections(&mut self) -> (r: Vec<(usize, Interest)>)
        requires
            old(self).wf(),
        ensures
            final(self).wf(),
            final(self).tcpConnections.view().dom() == old(self).tcpConnections.view().dom(),
            forall|k: int| #[trigger] old(self).tcpConnections.view().contains_key(k)
                ==> final(self).tcpConnections.view()[k] == reregistered(old(self).tcpConnections.view()[k]).0,
            forall|j: int| 0 <= j < r@.len() ==> old(self).tcpConnections.view().contains_key(#[trigger] r@[j].0 as int)
                && reregistered(old(self).tcpConnections.view()[r@[j].0 as int]).1 == Some(r@[j].1),
            forall|k: int| #[trigger] old(self).tcpConnections.view().contains_key(k)
                && reregistered(old(self).tcpConnections.view()[k]).1 is Some ==> listed(r@, k),
            final(self).udpConnections == old(self).udpConnections,
            final(self).players == old(self).players,
            final(self).sessions == old(self).sessions,
            final(self).state == old(self).state,
    {
        let handles = self.tcpConnections.handles();
        let ghost t0 = self.tcpConnections.view();
        let mut out: Vec<(usize, Interest)> = Vec::new();
        let mut i: usize = 0;
        while i < handles.len()
            invariant
                self.wf(),
                t0 == old(self).tcpConnections.view(),
                i <= handles@.len(),
                forall|a: int, b: int| 0 <= a < b < handles@.len() ==> handles@[a] < handles@[b],
                forall|k: int| 0 <= k < handles@.len() ==> t0.contains_key(#[trigger] handles@[k] as int),
                forall|h: int| t0.contains_key(h) ==> #[trigger] handles@.contains(h as usize),
                self.tcpConnections.view().dom() == t0.dom(),
                forall|x: int| 0 <= x < i ==> #[trigger] self.tcpConnections.view()[handles@[x] as int]
                    == reregistered(t0[handles@[x] as int]).0,
                forall|x: int| i <= x < handles@.len() ==> #[trigger] self.tcpConnections.view()[handles@[x] as int]
                    == t0[handles@[x] as int],
                forall|j: int| 0 <= j < out@.len() ==> t0.contains_key(#[trigger] out@[j].0 as int)
                    && reregistered(t0[out@[j].0 as int]).1 == Some(out@[j].1),
                forall|x: int| 0 <= x < i && #[trigger] reregistered(t0[handles@[x] as int]).1 is Some
                    ==> listed(out@, handles@[x] as int),
                self.udpConnections == old(self).udpConnections,
                self.players == old(self).players,
                self.sessions == old(self).sessions,
                self.state == old(self).state,
            decreases handles@.len() - i,
        {
            let h = handles[i];
            let ghost before = *self;
            let ghost out_before = out@;
            let mut c = self.tcpConnections.take(h).unwrap();
            let interest = c.reregister();
            self.tcpConnections.insert_at(h, c);
            assert(self.tcpConnections.view().dom() =~= old(self).tcpConnections.view().dom());
            proof {
                lemma_server_frame(before, *self);
            }
            if let Some(x) = interest {
                out.push((h, x));
                proof {
                    assert(out@[out@.len() - 1].0 == h);
                    assert forall|x: int| 0 <= x < i + 1 && #[trigger] reregistered(t0[handles@[x] as int]).1 is Some
                        implies listed(out@, handles@[x] as int) by {
                        if x < i {
                            let j = choose|j: int| 0 <= j < out_before.len() && out_before[j].0 == handles@[x];
                            assert(out@[j] == out_before[j]);
                        } else {
                            assert(out@[out@.len() - 1].0 == handles@[x]);
                        }
                    }
                }
            }
            i = i + 1;
        }
        proof {
            assert forall|k: int| #[trigger] old(self).tcpConnections.view().contains_key(k)
                implies self.tcpConnections.view()[k] == reregistered(t0[k]).0 by {
                assert(handles@.contains(k as usize));
                let x = choose|x: int| 0 <= x < handles@.len() && handles@[x] == k as usize;
                assert(self.tcpConnections.view()[handles@[x] as int] == reregistered(t0[handles@[x] as int]).0);
            }
            assert forall|k: int| #[trigger] old(self).tcpConnections.view().contains_key(k)
                && reregistered(t0[k]).1 is Some implies listed(out@, k) by {
                assert(handles@.contains(k as usize));
                let x = choose|x: int| 0 <= x < handles@.len() && handles@[x] == k as usize;
                assert(reregistered(t0[handles@[x] as int]).1 is Some);
            }
        }
        out
    }

    /// The periodic sweep of the TCP table: every stage deadline is checked,
    /// passing a timeout's disconnect on to the other transport and the
    /// player, and every stream marked for reset leaves the table, with its
    /// player. Gives back the handles that left.
    pub fn checkTCPConnections(&mut self, now: i64) -> (r: Vec<usize>)
        requires
            old(self).wf(),
        ensures
            final(self).wf(),
            tcp_swept(*old(self), now, *final(self), r@),
            final(self).tcpConnections.view().dom().subset_of(
                old(self).tcpConnections.view().dom(),
            ),
            forall|k: int| #[trigger]
                final(self).tcpConnections.view().contains_key(k) ==> !final(self).tcpConnections.view()[k].shouldReset,
            forall|k: int|
                0 <= k < r@.len() ==> old(self).tcpConnections.view().contains_key(r@[k] as int)
                    && !#[trigger] final(self).tcpConnections.view().contains_key(r@[k] as int),
            forall|k: int| #[trigger]
                old(self).tcpConnections.view().contains_key(k) && !final(self).tcpConnections.view().contains_key(k) ==> r@.contains(k as usize),
            final(self).udpConnections.view().dom() == old(self).udpConnections.view().dom(),
            final(self).sessions == old(self).sessions,
            final(self).state == old(self).state,
            final(self).tcpTickTime == old(self).tcpTickTime,
            final(self).udpTickTime == old(self).udpTickTime,
    {
        let handles = self.tcpConnections.handles();
        let ghost t0 = self.tcpConnections.view();
        let mut removed: Vec<usize> = Vec::new();
        let mut i: usize = 0;
        while i < handles.len()
            invariant
                self.wf(),
                t0 == old(self).tcpConnections.view(),
                i <= handles@.len(),
                forall|x: int| 0 <= x < i ==> #[trigger] swept_at(t0, now, *self, handles@[x] as int),
                forall|x: int| i <= x < handles@.len() ==> #[trigger] self.tcpConnections.view()[handles@[x] as int]
                    == t0[handles@[x] as int],
                forall|j: int| 0 <= j < removed@.len() ==> t0.contains_key(#[trigger] removed@[j] as int)
                    && t0[removed@[j] as int].shouldReset,
                forall|a: int, b: int| 0 <= a < b < handles@.len() ==> handles@[a] < handles@[b],
                forall|k: int|
                    0 <= k < handles@.len() ==> old(self).tcpConnections.view().contains_key(
                        #[trigger] handles@[k] as int,
                    ),
                forall|h: int|
                    old(self).tcpConnections.view().contains_key(h) ==> #[trigger] handles@.contains(
                        h as usize,
                    ),
                self.tcpConnections.view().dom().subset_of(old(self).tcpConnections.view().dom()),
                forall|k: int|
                    0 <= k < i ==> !(#[trigger] self.tcpConnections.view().contains_key(
                        handles@[k] as int,
                    ) && self.tcpConnections.view()[handles@[k] as int].shouldReset),
                forall|k: int|
                    i <= k < handles@.len() ==> #[trigger] self.tcpConnections.view().contains_key(
                        handles@[k] as int,
                    ),
                forall|k: int|
                    0 <= k < removed@.len() ==> old(self).tcpConnections.view().contains_key(
                        removed@[k] as int,
                    ) && !#[trigger] self.tcpConnections.view().contains_key(removed@[k] as int),
                forall|k: int| #[trigger]
                    old(self).tcpConnections.view().contains_key(k) && !self.tcpConnections.view().contains_key(k)
                        ==> removed@.contains(k as usize),
                self.udpConnections.view().dom() == old(self).udpConnections.view().dom(),
                self.sessions == old(self).sessions,
                self.state == old(self).state,
                self.tcpTickTime == old(self).tcpTickTime,
                self.udpTickTime == old(self).udpTickTime,
            decreases handles@.len() - i,
        {
            let h = handles[i];
            let ghost s0 = *self;
            let mut c = self.tcpConnections.take(h).unwrap();
            let ghost c0 = c;
            proof {
                assert forall|k: int| k != h implies #[trigger] linked(
                    self.players.view(),
                    self.tcpConnections.view(),
                    self.udpConnections.view(),
                    self.sessions@,
                    k,
                ) by {
                    assert(linked(
                        s0.players.view(),
                        s0.tcpConnections.view(),
                        s0.udpConnections.view(),
                        s0.sessions@,
                        k,
                    ));
                }
                assert(linked(
                    s0.players.view(),
                    s0.tcpConnections.view(),
                    s0.udpConnections.view(),
                    s0.sessions@,
                    h as int,
                ));
            }
            let passed_on = c.check(now);
            if passed_on {
                let reason = match &c.stage {
                    TCPConnectionStage::Disconnecting(r) => r.duplicate(),
                    _ => DisconnectionReason::Hup,
                };
                let copy = reason.duplicate();
                let copy2 = reason.duplicate();
                self.tryDisconnectPlayer(h, copy);
                self.tryDisconnectUDPConnection(h, reason);
                self.disconnectLog.push((h, DisconnectionSource::TCP, copy2));
            }
            let ghost s1 = *self;
            proof {
                assert(passed_on ==> s1.wf());
                assert(!passed_on ==> c.isActive == c0.isActive);
            }
            if c.shouldReset {
                let _ = self.players.take(h);
                proof {
                    assert forall|k: int| #[trigger] linked(
                        self.players.view(),
                        self.tcpConnections.view(),
                        self.udpConnections.view(),
                        self.sessions@,
                        k,
                    ) by {
                        if k != h {
                            assert(linked(
                                s1.players.view(),
                                s1.tcpConnections.view(),
                                s1.udpConnections.view(),
                                s1.sessions@,
                                k,
                            ));
                        }
                    }
                }
                let ghost prev = removed@;
                removed.push(h);
                proof {
                    assert forall|k: int| #[trigger]
                        old(self).tcpConnections.view().contains_key(k)
                            && !self.tcpConnections.view().contains_key(k) implies removed@.contains(
                        k as usize,
                    ) by {
                        if k == h {
                            assert(removed@[removed@.len() - 1] == h);
                        } else {
                            assert(prev.contains(k as usize));
                            let j = choose|j: int| 0 <= j < prev.len() && prev[j] == k as usize;
                            assert(removed@[j] == k as usize);
                        }
                    }
                }
            } else {
                self.tcpConnections.insert_at(h, c);
                proof {
                    assert forall|k: int| #[trigger] linked(
                        self.players.view(),
                        self.tcpConnections.view(),
                        self.udpConnections.view(),
                        self.sessions@,
                        k,
                    ) by {
                        assert(linked(
                            s1.players.view(),
                            s1.tcpConnections.view(),
                            s1.udpConnections.view(),
                            s1.sessions@,
                            k,
                        ) || k == h);
                    }
                }
            }
            proof {
                assert forall|x: int| 0 <= x < i + 1 implies #[trigger] swept_at(t0, now, *self, handles@[x] as int) by {
                    let k = handles@[x] as int;
                    if x < i {
                        assert(k != h);
                        assert(swept_at(t0, now, s0, k));
                        assert(self.players.view().contains_key(k) == s0.players.view().contains_key(k));
                        if s0.players.view().contains_key(k) {
                            assert(self.players.view()[k] == s0.players.view()[k]);
                        }
                        assert(self.tcpConnections.view().contains_key(k) == s0.tcpConnections.view().contains_key(k));
                        if s0.tcpConnections.view().contains_key(k) {
                            assert(self.tcpConnections.view()[k] == s0.tcpConnections.view()[k]);
                        }
                    } else {
                        assert(c0 == t0[k]);
                    }
                }
            }
            i = i + 1;
        }
        proof {
            assert forall|k: int| #[trigger] t0.contains_key(k) implies swept_at(t0, now, *self, k) by {
                assert(handles@.contains(k as usize));
                let x = choose|x: int| 0 <= x < handles@.len() && handles@[x] == k as usize;
                assert(swept_at(t0, now, *self, handles@[x] as int));
            }
            assert forall|k: int| #[trigger] self.tcpConnections.view().contains_key(k) <==> (
                t0.contains_key(k) && !t0[k].shouldReset) by {
                if t0.contains_key(k) {
                    assert(swept_at(t0, now, *self, k));
                }
            }
            assert forall|k: int| #[trigger]
                self.tcpConnections.view().contains_key(k) implies !self.tcpConnections.view()[k].shouldReset by {
                assert(old(self).tcpConnections.view().contains_key(k));
                assert(handles@.contains(k as usize));
                let j = choose|j: int| 0 <= j < handles@.len() && handles@[j] == k as usize;
            }
        }
        removed
    }

    /// Says farewell to every active stream at shutdown: each is
    /// disconnected with `ServerShutdown`, which queues the farewell message
    /// in place of whatever was queued.
    pub fn sendAbschiedMessages(&mut self)
        requires
            old(self).wf(),
        ensures
            final(self).wf(),
            final(self).tcpConnections.view().dom() == old(self).tcpConnections.view().dom(),
            forall|k: int| #[trigger]
                old(self).tcpConnections.view().contains_key(k) ==> {
                    let before = old(self).tcpConnections.view()[k];
                    let after = final(self).tcpConnections.view()[k];
                    &&& !after.isActive
                    &&& before.isActive ==> after.queued() == seq![
                        wire(ServerTcpMsg::ServerShutdown),
                    ] && after.stage == TCPConnectionStage::Disconnecting(
                        DisconnectionReason::ServerShutdown,
                    )
                    &&& !before.isActive ==> after == before
                },
            final(self).sessions == old(self).sessions,
            final(self).state == old(self).state,
    {
        let handles = self.tcpConnections.handles();
        let mut i: usize = 0;
        while i < handles.len()
            invariant
                self.wf(),
                i <= handles@.len(),
                forall|a: int, b: int| 0 <= a < b < handles@.len() ==> handles@[a] < handles@[b],
                forall|h: int|
                    old(self).tcpConnections.view().contains_key(h) ==> #[trigger] handles@.contains(
                        h as usize,
                    ),
                self.tcpConnections.view().dom() == old(self).tcpConnections.view().dom(),
                forall|k: int|
                    #![trigger old(self).tcpConnections.view()[handles@[k] as int]]
                    0 <= k < i && old(self).tcpConnections.view().contains_key(handles@[k] as int)
                        ==> {
                        let before = old(self).tcpConnections.view()[handles@[k] as int];
                        let after = self.tcpConnections.view()[handles@[k] as int];
                        &&& !after.isActive
                        &&& before.isActive ==> after.queued() == seq![
                            wire(ServerTcpMsg::ServerShutdown),
                        ] && after.stage == TCPConnectionStage::Disconnecting(
                            DisconnectionReason::ServerShutdown,
                        )
                        &&& !before.isActive ==> after == before
                    },
                forall|k: int|
                    #![trigger handles@[k]]
                    i <= k < handles@.len() && old(self).tcpConnections.view().contains_key(
                        handles@[k] as int,
                    ) ==> self.tcpConnections.view()[handles@[k] as int]
                        == old(self).tcpConnections.view()[handles@[k] as int],
                self.sessions == old(self).sessions,
                self.state == old(self).state,
            decreases handles@.len() - i,
        {
            let h = handles[i];
            self.disconnectTCPConnection(h, DisconnectionReason::ServerShutdown);
            i = i + 1;
        }
        proof {
            assert forall|k: int| #[trigger]
                old(self).tcpConnections.view().contains_key(k) implies {
                    let before = old(self).tcpConnections.view()[k];
                    let after = self.tcpConnections.view()[k];
                    &&& !after.isActive
                    &&& before.isActive ==> after.queued() == seq![
                        wire(ServerTcpMsg::ServerShutdown),
                    ] && after.stage == TCPConnectionStage::Disconnecting(
                        DisconnectionReason::ServerShutdown,
                    )
                    &&& !before.isActive ==> after == before
                } by {
                assert(handles@.contains(k as usize));
                let j = choose|j: int| 0 <= j < handles@.len() && handles@[j] == k as usize;
                assert(old(self).tcpConnections.view()[handles@[j] as int] == old(self).tcpConnections.view()[k]);
            }
        }
    }

    /// Closes every stream at the end of a shutdown: the table is left
    /// empty, and so is the player table. Gives back the handles that were
    /// in the first.
    pub fn closeTCPConnections(&mut self) -> (r: Vec<usize>)
        requires
            old(self).wf(),
        ensures
            final(self).wf(),
            final(self).tcpConnections.view() == Map::<int, TCPConnection>::empty(),
            final(self).players.view() == Map::<int, Player>::empty(),
            forall|h: int|
                old(self).tcpConnections.view().contains_key(h) ==> #[trigger] r@.contains(
                    h as usize,
                ),
            final(self).udpConnections == old(self).udpConnections,
            final(self).sessions == old(self).sessions,
            final(self).state == old(self).state,
    {
        let handles = self.tcpConnections.handles();
        self.tcpConnections.clear();
        self.players.clear();
        assert forall|k: int|
            #[trigger] linked(
                self.players.view(),
                self.tcpConnections.view(),
                self.udpConnections.view(),
                self.sessions@,
                k,
            ) by {
            assert(!self.players.view().contains_key(k));
        }
        handles
    }
}

/// A tick is due when more than a second has passed since the last one.
pub open spec fn tick_due(last: i64, now: i64) -> bool {
    now - last > 1
}

fn tickDue(last: i64, now: i64) -> (r: bool)
    ensures
        r == tick_due(last, now),
{
    if now <= last {
        false
    } else if last < 0 && now > i64::MAX + last {
        true
    } else {
        now - last > 1
    }
}

impl Server {
    // -----------------------------------------------------------------------
    // The UDP side.

    /// A handshake datagram (zero token): its payload must be an
    /// `Initialization` naming a handle within the table, whose TCP stream
    /// is active and waiting for exactly this handshake, with no player yet.
    /// Then a token is minted from `random`, the stream plays, and the UDP
    /// session and the player are created under that handle. A handle that
    /// is already bound to a live session is accepted again and changes
    /// nothing. Every refusal leaves the registry as it was.
    pub fn processUDPAccept(&mut self, datagram: &Vec<u8>, clientAddr: PeerAddress, random: u64) -> (r:
        Result<(), String>)
        requires
            old(self).wf(),
            datagram@.len() >= UDP_HEADER_LENGTH,
        ensures
            final(self).wf(),
            final(self).state == old(self).state,
            udp_accept_outcome(*old(self), datagram@, clientAddr, random, *final(self), r is Ok),
    {
        let packet = match ClientToServerUDPPacket::unpack(datagram) {
            Ok(p) => p,
            Err(e) => {
                return Err(e.to_owned());
            },
        };
        let h = match packet {
            ClientToServerUDPPacket::Initialization(h) => h,
        };
        if h >= self.sessions.len() {
            return Err("too much sessionID".to_string());
        }
        if self.sessions[h] != 0 {
            return match self.udpConnections.get(h) {
                Some(c) => {
                    if !c.shouldReset {
                        Ok(())
                    } else {
                        Err("Inactive UDP Connection still exists".to_string())
                    }
                },
                None => Err("Inactive UDP Connection still exists".to_string()),
            };
        }
        if !self.isTCPConnectionActive(h) {
            return Err("no active TCP Connection".to_string());
        }
        if self.players.contains(h) {
            return Err("Inactive Player still exists".to_string());
        }
        let (userID, userName) = match self.tcpConnections.get(h) {
            Some(c) => match &c.stage {
                TCPConnectionStage::UDPConnectionInitialization(_, userID, userName) => (
                    *userID,
                    userName.clone(),
                ),
                _ => {
                    return Err("stage is no UDP Initialization".to_string());
                },
            },
            None => {
                return Err("no active TCP Connection".to_string());
            },
        };
        let mut c = self.tcpConnections.take(h).unwrap();
        c.stage = TCPConnectionStage::Playing;
        self.tcpConnections.insert_at(h, c);
        assert(self.tcpConnections.view().dom() =~= old(self).tcpConnections.view().dom());
        let token = mint_token(random, h);
        self.sessions.set(h, token);
        self.udpConnections.insert_at(h, UDPConnection::new(token, clientAddr));
        self.players.insert_at(h, Player::new(h, userID, userName));
        proof {
            assert forall|k: int| #[trigger] linked(
                self.players.view(),
                self.tcpConnections.view(),
                self.udpConnections.view(),
                self.sessions@,
                k,
            ) by {
                if k != h {
                    assert(linked(
                        old(self).players.view(),
                        old(self).tcpConnections.view(),
                        old(self).udpConnections.view(),
                        old(self).sessions@,
                        k,
                    ));
                }
            }
        }
        Ok(())
    }

    /// Routes one datagram. One too short to hold the header, or too long,
    /// is dropped; a zero token is a handshake; any other token is accepted
    /// only if it is the very token stored for the handle in its low bits,
    /// and its payload then goes to that handle's player. A datagram whose
    /// token does not match is discarded and changes nothing.
    pub fn processDatagram(&mut self, datagram: &Vec<u8>, clientAddr: PeerAddress, random: u64) -> (r:
        DatagramResult)
        requires
            old(self).wf(),
        ensures
            final(self).wf(),
            final(self).state == old(self).state,
            datagram@.len() < UDP_HEADER_LENGTH || datagram@.len() >= UDP_DATAGRAM_LENGTH_LIMIT
                ==> r is Dropped && *final(self) == *old(self),
            UDP_HEADER_LENGTH <= datagram@.len() < UDP_DATAGRAM_LENGTH_LIMIT && be_u64(datagram@) == 0
                ==> udp_accept_outcome(*old(self), datagram@, clientAddr, random, *final(self), r is Accepted)
                && (r is Accepted || r is AcceptError),
            ({
                let token = be_u64(datagram@);
                let h = token_handle(token as u64);
                UDP_HEADER_LENGTH <= datagram@.len() < UDP_DATAGRAM_LENGTH_LIMIT && token != 0 ==> (
                if h < old(self).sessions@.len() && old(self).sessions@[h as int] == token {
                    &&& final(self).tcpConnections == old(self).tcpConnections
                    &&& final(self).udpConnections == old(self).udpConnections
                    &&& final(self).sessions == old(self).sessions
                    &&& final(self).players.view() == old(self).players.view()
                    &&& (r is Delivered || r is DecodeError)
                    &&& (r is Delivered <==> decode_client_udp(datagram@.skip(UDP_HEADER_LENGTH as int)) is Some)
                } else {
                    r is Discarded && *final(self) == *old(self)
                })
            }),
    {
        if datagram.len() < UDP_HEADER_LENGTH || datagram.len() >= UDP_DATAGRAM_LENGTH_LIMIT {
            return DatagramResult::Dropped;
        }
        let session = ClientToServerUDPPacket::unpackSession(datagram);
        if session == 0 {
            return match self.processUDPAccept(datagram, clientAddr, random) {
                Ok(()) => DatagramResult::Accepted,
                Err(e) => DatagramResult::AcceptError(e),
            };
        }
        let h = (session % 0x1_0000) as usize;
        if h < self.sessions.len() && session == self.sessions[h] {
            let time = ClientToServerUDPPacket::unpackTime(datagram);
            match ClientToServerUDPPacket::unpack(datagram) {
                Ok(packet) => {
                    let ghost before = *self;
                    if let Some(mut p) = self.players.take(h) {
                        p.processDatagram(&packet, time);
                        self.players.insert_at(h, p);
                        assert(self.players.view() =~= old(self).players.view());
                        proof {
                            lemma_server_frame(*old(self), *self);
                        }
                    } else {
                        assert(self.players.view() =~= before.players.view());
                        proof {
                            lemma_server_frame(before, *self);
                        }
                    }
                    DatagramResult::Delivered
                },
                Err(e) => DatagramResult::DecodeError(e.to_owned()),
            }
        } else {
            DatagramResult::Discarded
        }
    }

    /// The periodic sweep of the UDP table: every session marked for reset
    /// leaves the table and its handle's token is cleared.
    pub fn checkUDPConnections(&mut self)
        requires
            old(self).wf(),
        ensures
            final(self).wf(),
            udp_swept(*old(self), *final(self)),
            final(self).udpConnections.view().dom().subset_of(
                old(self).udpConnections.view().dom(),
            ),
            forall|k: int| #[trigger]
                final(self).udpConnections.view().contains_key(k) ==> !final(self).udpConnections.view()[k].shouldReset,
            forall|k: int| #[trigger]
                old(self).udpConnections.view().contains_key(k) && !final(self).udpConnections.view().contains_key(k) ==> final(self).sessions@[k] == 0,
            final(self).tcpConnections == old(self).tcpConnections,
            final(self).players == old(self).players,
            final(self).state == old(self).state,
            final(self).tcpTickTime == old(self).tcpTickTime,
            final(self).udpTickTime == old(self).udpTickTime,
    {
        let handles = self.udpConnections.handles();
        let mut i: usize = 0;
        while i < handles.len()
            invariant
                old(self).wf(),
                self.wf(),
                i <= handles@.len(),
                forall|a: int, b: int| 0 <= a < b < handles@.len() ==> handles@[a] < handles@[b],
                forall|h: int|
                    old(self).udpConnections.view().contains_key(h) ==> #[trigger] handles@.contains(
                        h as usize,
                    ),
                forall|k: int|
                    0 <= k < handles@.len() ==> old(self).udpConnections.view().contains_key(
                        #[trigger] handles@[k] as int,
                    ),
                self.udpConnections.view().dom().subset_of(old(self).udpConnections.view().dom()),
                forall|k: int|
                    0 <= k < i ==> !(#[trigger] self.udpConnections.view().contains_key(
                        handles@[k] as int,
                    ) && self.udpConnections.view()[handles@[k] as int].shouldReset),
                forall|k: int|
                    i <= k < handles@.len() ==> #[trigger] self.udpConnections.view().contains_key(
                        handles@[k] as int,
                    ) && self.udpConnections.view()[handles@[k] as int] == old(self).udpConnections.view()[handles@[k] as int],
                forall|k: int| #[trigger]
                    old(self).udpConnections.view().contains_key(k)
                        && !self.udpConnections.view().contains_key(k) ==> self.sessions@[k] == 0,
                self.sessions@.len() == old(self).sessions@.len(),
                forall|k: int| #[trigger] self.udpConnections.view().contains_key(k)
                    ==> self.udpConnections.view()[k] == old(self).udpConnections.view()[k],
                forall|k: int| #[trigger] old(self).udpConnections.view().contains_key(k)
                    && !self.udpConnections.view().contains_key(k) ==> old(self).udpConnections.view()[k].shouldReset,
                forall|k: int| 0 <= k < self.sessions@.len() && #[trigger] self.sessions@[k] != old(self).sessions@[k]
                    ==> old(self).udpConnections.view().contains_key(k) && !self.udpConnections.view().contains_key(k),
                self.tcpConnections == old(self).tcpConnections,
                self.players == old(self).players,
                self.state == old(self).state,
                self.tcpTickTime == old(self).tcpTickTime,
                self.udpTickTime == old(self).udpTickTime,
            decreases handles@.len() - i,
        {
            let h = handles[i];
            let reset = match self.udpConnections.get(h) {
                Some(c) => c.shouldReset,
                None => false,
            };
            if reset {
                let ghost s0 = *self;
                let ghost before = self.sessions@;
                let ghost udp_before = self.udpConnections.view();
                let _ = self.udpConnections.take(h);
                self.sessions.set(h, 0);
                proof {
                    assert forall|k: int| #[trigger] linked(
                        self.players.view(),
                        self.tcpConnections.view(),
                        self.udpConnections.view(),
                        self.sessions@,
                        k,
                    ) by {
                        assert(linked(
                            s0.players.view(),
                            s0.tcpConnections.view(),
                            s0.udpConnections.view(),
                            s0.sessions@,
                            k,
                        ));
                    }
                    assert forall|k: int| #[trigger]
                        old(self).udpConnections.view().contains_key(k)
                            && !self.udpConnections.view().contains_key(k) implies self.sessions@[k]
                        == 0 by {
                        if k != h {
                            assert(0 <= k < before.len());
                            assert(!udp_before.contains_key(k));
                            assert(self.sessions@[k] == before[k]);
                        }
                    }
                    assert forall|k: int| 0 <= k < self.sessions@.len() && #[trigger] self.sessions@[k]
                        != old(self).sessions@[k] implies old(self).udpConnections.view().contains_key(k)
                        && !self.udpConnections.view().contains_key(k) by {
                        if k != h {
                            assert(self.sessions@[k] == before[k]);
                        }
                    }
                }
            }
            i = i + 1;
        }
        proof {
            assert forall|k: int| 0 <= k < old(self).sessions@.len() implies #[trigger] self.sessions@[k] == (if old(self).udpConnections.view().contains_key(k)
                && old(self).udpConnections.view()[k].shouldReset {
                0u64
            } else {
                old(self).sessions@[k]
            }) by {
                let u = old(self).udpConnections.view();
                if u.contains_key(k) && u[k].shouldReset {
                    assert(handles@.contains(k as usize));
                    let x = choose|x: int| 0 <= x < handles@.len() && handles@[x] == k as usize;
                    assert(!(self.udpConnections.view().contains_key(handles@[x] as int) && self.udpConnections.view()[handles@[x] as int].shouldReset));
                } else if self.sessions@[k] != old(self).sessions@[k] {
                    assert(old(self).udpConnections.view().contains_key(k) && !self.udpConnections.view().contains_key(k));
                }
            }
            assert forall|k: int| #[trigger] self.udpConnections.view().contains_key(k) <==> (old(self).udpConnections.view().contains_key(k)
                && !old(self).udpConnections.view()[k].shouldReset) by {
                if old(self).udpConnections.view().contains_key(k) && !old(self).udpConnections.view()[k].shouldReset {
                    assert(self.udpConnections.view().contains_key(k));
                }
            }
            assert forall|k: int| #[trigger]
                self.udpConnections.view().contains_key(k) implies !self.udpConnections.view()[k].shouldReset by {
                assert(old(self).udpConnections.view().contains_key(k));
                assert(handles@.contains(k as usize));
                let j = choose|j: int| 0 <= j < handles@.len() && handles@[j] == k as usize;
            }
        }
    }

    // -----------------------------------------------------------------------
    // Ticks.

    /// The TCP reactor's tick at time `now`: when due, the sweep runs.
    /// Gives back the handles that left the table.
    pub fn processTCPTickAt(&mut self, now: i64) -> (r: Vec<usize>)
        requires
            old(self).wf(),
        ensures
            final(self).wf(),
            !tick_due(old(self).tcpTickTime, now) ==> *final(self) == *old(self) && r@.len() == 0,
            tick_due(old(self).tcpTickTime, now) ==> final(self).tcpTickTime == now && tcp_swept(
                *old(self),
                now,
                *final(self),
                r@,
            ),
            final(self).state == old(self).state,
    {
        if tickDue(self.tcpTickTime, now) {
            self.tcpTickTime = now;
            self.checkTCPConnections(now)
        } else {
            Vec::new()
        }
    }

    /// The TCP reactor's tick, at the time of the wall clock.
    pub fn processTCPTick(&mut self) -> (r: Vec<usize>)
        requires
            old(self).wf(),
        ensures
            final(self).wf(),
            final(self).state == old(self).state,
            forall|k: int| #[trigger] final(self).tcpConnections.view().contains_key(k)
                ==> old(self).tcpConnections.view().contains_key(k),
            forall|k: int| #[trigger] old(self).tcpConnections.view().contains_key(k)
                && !old(self).tcpConnections.view()[k].shouldReset ==> final(self).tcpConnections.view().contains_key(k),
            forall|k: int| #[trigger] old(self).tcpConnections.view().contains_key(k)
                && !final(self).tcpConnections.view().contains_key(k) ==> old(self).tcpConnections.view()[k].shouldReset
                && r@.contains(k as usize),
    {
        let now = now_secs();
        self.processTCPTickAt(now)
    }

    /// The UDP reactor's tick at time `now`: when due, the sweep runs.
    pub fn processUDPTickAt(&mut self, now: i64)
        requires
            old(self).wf(),
        ensures
            final(self).wf(),
            !tick_due(old(self).udpTickTime, now) ==> *final(self) == *old(self),
            tick_due(old(self).udpTickTime, now) ==> final(self).udpTickTime == now && udp_swept(
                *old(self),
                *final(self),
            ),
            final(self).state == old(self).state,
    {
        if tickDue(self.udpTickTime, now) {
            self.udpTickTime = now;
            self.checkUDPConnections();
        }
    }

    /// The UDP reactor's tick, at the time of the wall clock.
    pub fn processUDPTick(&mut self)
        requires
            old(self).wf(),
        ensures
            final(self).wf(),
            final(self).state == old(self).state,
            forall|k: int| #[trigger] final(self).udpConnections.view().contains_key(k)
                ==> old(self).udpConnections.view().contains_key(k) && final(self).udpConnections.view()[k]
                == old(self).udpConnections.view()[k],
            forall|k: int| #[trigger] old(self).udpConnections.view().contains_key(k)
                && !old(self).udpConnections.view()[k].shouldReset ==> final(self).udpConnections.view().contains_key(k),
    {
        let now = now_secs();
        self.processUDPTickAt(now)
    }

    /// Accepts or routes a datagram, drawing the nonce of a new token from
    /// the thread's random generator.
    pub fn receiveDatagram(&mut self, datagram: &Vec<u8>, clientAddr: PeerAddress) -> (r:
        DatagramResult)
        requires
            old(self).wf(),
        ensures
            final(self).wf(),
            final(self).state == old(self).state,
            ({
                let token = be_u64(datagram@);
                let h = token_handle(token as u64);
                UDP_HEADER_LENGTH <= datagram@.len() < UDP_DATAGRAM_LENGTH_LIMIT && token != 0 && !(h
                    < old(self).sessions@.len() && old(self).sessions@[h as int] == token) ==> r is Discarded
                    && *final(self) == *old(self)
            }),
            datagram@.len() < UDP_HEADER_LENGTH || datagram@.len() >= UDP_DATAGRAM_LENGTH_LIMIT
                ==> r is Dropped && *final(self) == *old(self),
            ({
                let token = be_u64(datagram@);
                let h = token_handle(token as u64);
                UDP_HEADER_LENGTH <= datagram@.len() < UDP_DATAGRAM_LENGTH_LIMIT && token != 0 && h
                    < old(self).sessions@.len() && old(self).sessions@[h as int] == token ==> {
                    &&& final(self).tcpConnections == old(self).tcpConnections
                    &&& final(self).udpConnections == old(self).udpConnections
                    &&& final(self).sessions == old(self).sessions
                    &&& final(self).players.view() == old(self).players.view()
                    &&& (r is Delivered <==> decode_client_udp(datagram@.skip(UDP_HEADER_LENGTH as int)) is Some)
                    &&& (r is Delivered || r is DecodeError)
                }
            }),
            UDP_HEADER_LENGTH <= datagram@.len() < UDP_DATAGRAM_LENGTH_LIMIT && be_u64(datagram@) == 0
                ==> (r is Accepted || r is AcceptError),
    {
        let random: u64 = rand::random::<u64>();
        self.processDatagram(datagram, clientAddr, random)
    }
}

impl Server {
    /// Takes the identity server's answer for the stream of `h`, which
    /// counts only while that stream is active and waiting for it. A status
    /// other than 200 or 304 falls back to login or registration; an answer
    /// that starts with `Error:`, or that holds no user id and name,
    /// disconnects with a server error; otherwise the stream moves on to the
    /// UDP handshake.
    pub fn onIdentityResponse(&mut self, h: usize, code: usize, body: &[u8], now: i64)
        requires
            old(self).wf(),
        ensures
            final(self).wf(),
            final(self).tcpConnections.view().dom() == old(self).tcpConnections.view().dom(),
            final(self).sessions == old(self).sessions,
            final(self).state == old(self).state,
            ({
                let tcp = old(self).tcpConnections.view();
                let after = final(self).tcpConnections.view()[h as int];
                if !(tcp.contains_key(h as int) && tcp[h as int].isActive && tcp[
                    h as int
                ].stage is LoadingPlayerDataFromMasterServer) {
                    *final(self) == *old(self)
                } else if code != 200 && code != 304 {
                    &&& after.stage == TCPConnectionStage::LoginOrRegister(
                        crate::tcp_connection::deadline(
                            now,
                            crate::tcp_connection::STATE_LOGIN_OR_REGISTER_TIMEOUT,
                        ),
                        0,
                    )
                    &&& after.queued() == tcp[h as int].queued().push(
                        wire(ServerTcpMsg::LoginOrRegister),
                    )
                    &&& after.isActive
                } else {
                    let text = lossy_utf8(body@);
                    if "Error:"@.len() <= text.len() && text.subrange(0, "Error:"@.len() as int)
                        == "Error:"@ {
                        !after.isActive && after.stage matches TCPConnectionStage::Disconnecting(
                            DisconnectionReason::ServerError(_),
                        )
                    } else {
                        match identity_in(text) {
                            Some((id, name)) => {
                                &&& after.isActive
                                &&& after.stage matches TCPConnectionStage::UDPConnectionInitialization(
                                    _,
                                    uid,
                                    uname,
                                ) && uid == id && uname@ == name
                                &&& after.queued() == tcp[h as int].queued().push(
                                    wire(ServerTcpMsg::InitializeUDPConnection(h as nat)),
                                )
                            },
                            None => !after.isActive && after.stage matches TCPConnectionStage::Disconnecting(
                                DisconnectionReason::ServerError(_),
                            ),
                        }
                    }
                }
            }),
    {
        let waiting = match self.tcpConnections.get(h) {
            Some(c) => c.isActive && matches!(
                c.stage,
                TCPConnectionStage::LoadingPlayerDataFromMasterServer(_)
            ),
            None => false,
        };
        if !waiting {
            return;
        }
        if code == 200 || code == 304 {
            let response = utf8_lossy(body);
            let chars = chars_of(response.as_str());
            if starts_with(chars.as_slice(), "Error:") {
                self.disconnectTCPConnection(
                    h,
                    DisconnectionReason::ServerError(
                        "invalid SessionID, try to connect to server from server list again".to_string(),
                    ),
                );
            } else {
                let mut c = self.tcpConnections.take(h).unwrap();
                let r = c.initializeUDPConnection(response.as_str(), now);
                self.tcpConnections.insert_at(h, c);
                assert(self.tcpConnections.view().dom() =~= old(self).tcpConnections.view().dom());
                proof {
                    lemma_server_frame(*old(self), *self);
                }
                if let Err(e) = r {
                    self.disconnectTCPConnection(h, DisconnectionReason::ServerError(e));
                }
            }
        } else {
            let mut c = self.tcpConnections.take(h).unwrap();
            c.stage = TCPConnectionStage::LoginOrRegister(
                crate::tcp_connection::deadline_after(
                    now,
                    crate::tcp_connection::STATE_LOGIN_OR_REGISTER_TIMEOUT,
                ),
                0,
            );
            c.sendMessage(crate::packet::ServerToClientTCPPacket::LoginOrRegister.pack());
            self.tcpConnections.insert_at(h, c);
            assert(self.tcpConnections.view().dom() =~= old(self).tcpConnections.view().dom());
            proof {
                lemma_server_frame(*old(self), *self);
            }
        }
    }
}

} // verus!
