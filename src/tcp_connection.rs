//! One TCP stream's protocol state: framing of what it reads, the queue of
//! what it writes, and the stage of its handshake.
//!
//! The socket itself stays with the caller, which hands over what it read,
//! writes what `unwritten` shows, and reports back how much went out.

use vstd::prelude::*;
use vstd::utf8::encode_utf8;
use crate::framing::{bytes_of, feed, FrameReader};
use crate::packet::{
    push_bytes, server_tcp_payload, tcp_frame, ClientToServerTCPPacket, ServerTcpMsg, ServerToClientTCPPacket,
    MESSAGE_TO_CLIENT_LIMIT,
};
use crate::server::DisconnectionReason;
use crate::description::{lookup_string, parse, parse_text, Dict, Value};
use crate::text::parse_unsigned;

verus! {

pub const STATE_WAITING_SESSIONID_TIMEOUT: i64 = 10;

pub const STATE_LOADING_PLAYER_DATA_FROM_MASTER_SERVER_TIMEOUT: i64 = 10;

pub const STATE_LOGIN_OR_REGISTER_TIMEOUT: i64 = 10;

pub const STATE_INITIALIZING_UDP_CONNECTION_TIMEOUT: i64 = 5;

/// Where the identity server listens.
pub const MASTERSERVER_ADDRESS: &'static str = "89.110.48.1:1941";

/// Largest payload accepted before the connection plays.
pub const MESSAGE_LIMIT_NOT_PLAYING: usize = 16384;

/// Largest payload accepted once the connection plays.
pub const MESSAGE_LIMIT_PLAYING: usize = 16384;

/// `now + delay`, or the latest time there is.
pub open spec fn deadline(now: i64, delay: i64) -> i64 {
    if now > i64::MAX - delay {
        i64::MAX
    } else {
        (now + delay) as i64
    }
}

pub fn deadline_after(now: i64, delay: i64) -> (r: i64)
    requires
        0 <= delay,
    ensures
        r == deadline(now, delay),
{
    if now > i64::MAX - delay {
        i64::MAX
    } else {
        now + delay
    }
}

pub enum TCPConnectionStage {
    Disconnecting(DisconnectionReason),
    WaitingSessionID(i64),
    LoadingPlayerDataFromMasterServer(i64),
    LoginOrRegister(i64, usize),
    UDPConnectionInitialization(i64, usize, String),
    Playing,
}

/// The events a stream is to be watched for (hang-up and error always).
#[derive(PartialEq, Eq, Structural, Copy, Clone)]
pub struct Interest {
    pub readable: bool,
    pub writable: bool,
}

/// What a chunk read from the stream gave.
pub enum ReadResult {
    /// No frame completed.
    NotReady,
    /// The payloads of the frames completed, in order.
    Ready(Vec<Vec<u8>>),
    /// A length over the limit, a fatal protocol error: the payloads
    /// completed before it, and why.
    FatalError(Vec<Vec<u8>>, String),
}

/// What re-arming a connection's watch makes of it, and how it is to be
/// watched: nothing if it asked for nothing or is to be reset; a connection
/// that has said its farewell and has nothing left to write is marked for
/// reset; any other is watched for reading while active and for writing
/// while bytes wait.
pub open spec fn reregistered(c: TCPConnection) -> (TCPConnection, Option<Interest>) {
    if !c.shouldReregister || c.shouldReset {
        (c, None)
    } else if !c.isActive && c.outgoing().len() == 0 {
        (TCPConnection { shouldReregister: false, shouldReset: true, ..c }, None)
    } else {
        (
            TCPConnection { shouldReregister: false, ..c },
            Some(Interest { readable: c.isActive, writable: c.outgoing().len() > 0 }),
        )
    }
}

/// The farewell message that a disconnect for `reason` sends, if any.
pub open spec fn farewell(reason: DisconnectionReason) -> Option<ServerTcpMsg> {
    match reason {
        DisconnectionReason::ServerShutdown => Some(ServerTcpMsg::ServerShutdown),
        DisconnectionReason::ServerDesire(m) => Some(ServerTcpMsg::ServerDesire(m@)),
        DisconnectionReason::ServerError(m) => Some(ServerTcpMsg::ServerError(m@)),
        _ => None,
    }
}

/// The bytes on the wire of a message to a client.
pub open spec fn wire(m: ServerTcpMsg) -> Seq<u8> {
    tcp_frame(server_tcp_payload(m), MESSAGE_TO_CLIENT_LIMIT as nat)
}

pub struct TCPConnection {
    pub token: usize,
    pub shouldReset: bool,
    pub isActive: bool,
    pub shouldReregister: bool,
    pub reader: FrameReader,
    pub sendQueue: Vec<Vec<u8>>,
    pub writeBuffer: Vec<u8>,
    pub written: usize,
    pub stage: TCPConnectionStage,
}

impl TCPConnection {
    pub open spec fn wf(&self) -> bool {
        &&& self.written <= self.writeBuffer@.len()
        &&& self.shouldReset ==> !self.isActive
    }

    /// The rest of the message being written.
    pub open spec fn in_flight(&self) -> Seq<u8> {
        self.writeBuffer@.skip(self.written as int)
    }

    /// The whole messages waiting behind it, first to be sent first.
    pub open spec fn queued(&self) -> Seq<Seq<u8>> {
        bytes_of(self.sendQueue@)
    }

    /// Every byte still to be written, in order.
    pub open spec fn outgoing(&self) -> Seq<u8> {
        self.in_flight() + self.queued().flatten()
    }

    /// What the stream has delivered and not yet framed, and whether a length
    /// over the limit stopped the reading.
    pub open spec fn reading(&self) -> (Seq<u8>, bool) {
        self.reader@
    }

    /// The largest payload the current stage accepts.
    pub open spec fn message_limit(&self) -> usize {
        if self.stage is Playing {
            MESSAGE_LIMIT_PLAYING
        } else {
            MESSAGE_LIMIT_NOT_PLAYING
        }
    }

    /// A freshly accepted connection, waiting for its session id.
    pub fn new(token: usize, now: i64) -> (r: TCPConnection)
        ensures
            r.wf(),
            r.token == token,
            !r.shouldReset,
            r.isActive,
            !r.shouldReregister,
            r.stage == TCPConnectionStage::WaitingSessionID(
                deadline(now, STATE_WAITING_SESSIONID_TIMEOUT),
            ),
            r.outgoing() == Seq::<u8>::empty(),
            r.queued() == Seq::<Seq<u8>>::empty(),
            r.reading() == (Seq::<u8>::empty(), false),
    {
        let r = TCPConnection {
            token,
            shouldReset: false,
            isActive: true,
            shouldReregister: false,
            reader: FrameReader::new(),
            sendQueue: Vec::new(),
            writeBuffer: Vec::new(),
            written: 0,
            stage: TCPConnectionStage::WaitingSessionID(
                deadline_after(now, STATE_WAITING_SESSIONID_TIMEOUT),
            ),
        };
        assert(r.queued() =~= Seq::<Seq<u8>>::empty());
        assert(r.outgoing() =~= Seq::<u8>::empty());
        r
    }

    pub fn message_limit_exec(&self) -> (r: usize)
        ensures
            r == self.message_limit(),
    {
        match self.stage {
            TCPConnectionStage::Playing => MESSAGE_LIMIT_PLAYING,
            _ => MESSAGE_LIMIT_NOT_PLAYING,
        }
    }

    /// Takes a chunk read from the stream; frames are cut at the limit of
    /// the current stage.
    pub fn readMessage(&mut self, chunk: &[u8]) -> (r: ReadResult)
        requires
            old(self).wf(),
        ensures
            final(self).wf(),
            ({
                let f = feed(
                    old(self).reading().0,
                    old(self).reading().1,
                    chunk@,
                    old(self).message_limit() as nat,
                );
                &&& final(self).reading() == (f.1, f.2)
                &&& match r {
                    ReadResult::NotReady => f.0.len() == 0 && !f.2,
                    ReadResult::Ready(frames) => bytes_of(frames@) == f.0 && f.0.len() > 0
                        && !f.2,
                    ReadResult::FatalError(frames, e) => bytes_of(frames@) == f.0 && f.2 && e@
                        == "Message length is too large"@,
                }
            }),
            final(self).token == old(self).token,
            final(self).shouldReset == old(self).shouldReset,
            final(self).isActive == old(self).isActive,
            final(self).shouldReregister == old(self).shouldReregister,
            final(self).stage == old(self).stage,
            final(self).in_flight() == old(self).in_flight(),
            final(self).queued() == old(self).queued(),
    {
        let limit = self.message_limit_exec();
        let frames = self.reader.push(chunk, limit);
        if self.reader.has_failed() {
            ReadResult::FatalError(frames, "Message length is too large".to_string())
        } else if frames.len() == 0 {
            ReadResult::NotReady
        } else {
            ReadResult::Ready(frames)
        }
    }

    /// Queues a message behind the others.
    pub fn sendMessage(&mut self, msg: Vec<u8>)
        requires
            old(self).wf(),
        ensures
            final(self).wf(),
            final(self).in_flight() == old(self).in_flight(),
            final(self).queued() == old(self).queued().push(msg@),
            final(self).outgoing() == old(self).outgoing() + msg@,
            final(self).shouldReregister,
            final(self).token == old(self).token,
            final(self).shouldReset == old(self).shouldReset,
            final(self).isActive == old(self).isActive,
            final(self).stage == old(self).stage,
            final(self).reading() == old(self).reading(),
    {
        let ghost m = msg@;
        self.sendQueue.push(msg);
        self.shouldReregister = true;
        proof {
            assert(self.queued() =~= old(self).queued().push(m));
            old(self).queued().lemma_flatten_push(m);
            assert(self.outgoing() =~= old(self).outgoing() + m);
        }
    }

    /// Drops the queued messages and queues a farewell; the rest of a
    /// message already begun still goes out first.
    pub fn sendAbschiedMessage(&mut self, msg: Vec<u8>)
        requires
            old(self).wf(),
        ensures
            final(self).wf(),
            final(self).in_flight() == old(self).in_flight(),
            final(self).queued() == seq![msg@],
            final(self).shouldReregister,
            final(self).token == old(self).token,
            final(self).shouldReset == old(self).shouldReset,
            final(self).isActive == old(self).isActive,
            final(self).stage == old(self).stage,
            final(self).reading() == old(self).reading(),
    {
        self.sendQueue.clear();
        self.sendQueue.push(msg);
        self.shouldReregister = true;
        proof {
            assert(self.queued() =~= seq![msg@]);
        }
    }

    /// Moves the next queued message in flight once the current one is out.
    pub fn loadNextMessage(&mut self)
        requires
            old(self).wf(),
        ensures
            final(self).wf(),
            final(self).outgoing() == old(self).outgoing(),
            final(self).outgoing().len() > 0 ==> final(self).in_flight().len() > 0,
            final(self).token == old(self).token,
            final(self).shouldReset == old(self).shouldReset,
            final(self).isActive == old(self).isActive,
            final(self).shouldReregister == old(self).shouldReregister,
            final(self).stage == old(self).stage,
            final(self).reading() == old(self).reading(),
    {
        while self.written == self.writeBuffer.len() && self.sendQueue.len() > 0
            invariant
                self.wf(),
                self.outgoing() == old(self).outgoing(),
                self.token == old(self).token,
                self.shouldReset == old(self).shouldReset,
                self.isActive == old(self).isActive,
                self.shouldReregister == old(self).shouldReregister,
                self.stage == old(self).stage,
                self.reading() == old(self).reading(),
            decreases self.sendQueue@.len(),
        {
            let ghost q = self.queued();
            let next = self.sendQueue.remove(0);
            self.writeBuffer = next;
            self.written = 0;
            proof {
                assert(q =~= seq![next@] + self.queued());
                vstd::seq_lib::lemma_flatten_concat(seq![next@], self.queued());
                assert(seq![next@].flatten() =~= next@) by {
                    seq![next@].lemma_flatten_one_element();
                }
                assert(old(self).in_flight().len() >= 0);
                assert(self.in_flight() =~= next@);
            }
        }
        proof {
            if self.in_flight().len() == 0 {
                assert(self.sendQueue@.len() == 0);
                assert(self.queued() =~= Seq::<Seq<u8>>::empty());
            }
        }
    }

    /// The bytes to hand to the stream next.
    pub fn unwritten(&self) -> (r: &[u8])
        requires
            self.wf(),
        ensures
            r@ == self.in_flight(),
    {
        let b = vstd::slice::slice_subrange(self.writeBuffer.as_slice(), self.written, self.writeBuffer.len());
        assert(b@ =~= self.in_flight());
        b
    }

    /// The stream took the first `n` bytes of `unwritten`.
    pub fn wrote(&mut self, n: usize)
        requires
            old(self).wf(),
            n <= old(self).in_flight().len(),
        ensures
            final(self).wf(),
            final(self).outgoing() == old(self).outgoing().skip(n as int),
            final(self).queued() == old(self).queued(),
            final(self).token == old(self).token,
            final(self).shouldReset == old(self).shouldReset,
            final(self).isActive == old(self).isActive,
            final(self).shouldReregister == old(self).shouldReregister,
            final(self).stage == old(self).stage,
            final(self).reading() == old(self).reading(),
    {
        let len = self.writeBuffer.len();
        assert(old(self).in_flight().len() == len - self.written);
        self.written = self.written + n;
        assert(self.in_flight() =~= old(self).in_flight().skip(n as int));
        assert(self.outgoing() =~= old(self).outgoing().skip(n as int));
    }

    /// Whether anything is left to write.
    pub fn hasOutput(&self) -> (r: bool)
        requires
            self.wf(),
        ensures
            r == (self.outgoing().len() > 0),
    {
        if self.written < self.writeBuffer.len() {
            return true;
        }
        let mut i: usize = 0;
        while i < self.sendQueue.len()
            invariant
                self.wf(),
                self.in_flight().len() == 0,
                i <= self.sendQueue@.len(),
                forall|k: int| 0 <= k < i ==> self.sendQueue@[k]@.len() == 0,
            decreases self.sendQueue@.len() - i,
        {
            if self.sendQueue[i].len() > 0 {
                proof {
                    lemma_flatten_nonempty(self.queued(), i as int);
                }
                return true;
            }
            i = i + 1;
        }
        proof {
            lemma_flatten_all_empty(self.queued());
        }
        false
    }

    /// Decides how the stream is watched from now on, if it is to be
    /// watched anew; a connection that has said its farewell and has nothing
    /// left to write is marked for reset instead.
    pub fn reregister(&mut self) -> (r: Option<Interest>)
        requires
            old(self).wf(),
        ensures
            final(self).wf(),
            (*final(self), r) == reregistered(*old(self)),
            !old(self).shouldReregister || old(self).shouldReset ==> r is None && *final(self)
                == *old(self),
            old(self).shouldReregister && !old(self).shouldReset ==> {
                &&& !final(self).shouldReregister
                &&& if !old(self).isActive && old(self).outgoing().len() == 0 {
                    r is None && final(self).shouldReset
                } else {
                    r == Some(
                        Interest {
                            readable: old(self).isActive,
                            writable: old(self).outgoing().len() > 0,
                        },
                    ) && !final(self).shouldReset
                }
            },
            final(self).token == old(self).token,
            final(self).isActive == old(self).isActive,
            final(self).stage == old(self).stage,
            final(self).outgoing() == old(self).outgoing(),
            final(self).queued() == old(self).queued(),
            final(self).in_flight() == old(self).in_flight(),
            final(self).reading() == old(self).reading(),
    {
        if !self.shouldReregister || self.shouldReset {
            return None;
        }
        self.shouldReregister = false;
        let pending = self.hasOutput();
        if !self.isActive && !pending {
            self.shouldReset = true;
            return None;
        }
        Some(Interest { readable: self.isActive, writable: pending })
    }

    /// Marks the connection disconnected for `reason`, without telling the
    /// other transport: a reason that resets does so at once and is recorded
    /// even over an earlier farewell; any other one queues its farewell,
    /// once, while the connection is still active.
    pub fn _disconnect(&mut self, reason: DisconnectionReason)
        requires
            old(self).wf(),
        ensures
            final(self).wf(),
            !final(self).isActive,
            final(self).shouldReset == (old(self).shouldReset || reason.resets_at_once()),
            final(self).stage == (if old(self).isActive || reason.resets_at_once() {
                TCPConnectionStage::Disconnecting(reason)
            } else {
                old(self).stage
            }),
            final(self).in_flight() == old(self).in_flight(),
            match farewell(reason) {
                Some(m) => if old(self).isActive {
                    final(self).queued() == seq![wire(m)] && final(self).shouldReregister
                } else {
                    final(self).queued() == old(self).queued() && final(self).shouldReregister
                        == old(self).shouldReregister
                },
                None => final(self).queued() == old(self).queued()
                    && final(self).shouldReregister == old(self).shouldReregister,
            },
            final(self).token == old(self).token,
            final(self).reading() == old(self).reading(),
    {
        let was_active = self.isActive;
        match &reason {
            DisconnectionReason::Hup => {
                self.shouldReset = true;
            },
            DisconnectionReason::FatalError(_) => {
                self.shouldReset = true;
            },
            DisconnectionReason::ClientDesire(_) => {
                self.shouldReset = true;
            },
            DisconnectionReason::ClientError(_) => {
                self.shouldReset = true;
            },
            DisconnectionReason::ServerShutdown => {
                if was_active {
                    self.sendAbschiedMessage(ServerToClientTCPPacket::ServerShutdown.pack());
                }
            },
            DisconnectionReason::ServerDesire(m) => {
                if was_active {
                    self.sendAbschiedMessage(ServerToClientTCPPacket::ServerDesire(m.clone()).pack());
                }
            },
            DisconnectionReason::ServerError(m) => {
                if was_active {
                    self.sendAbschiedMessage(ServerToClientTCPPacket::ServerError(m.clone()).pack());
                }
            },
        }
        if was_active || reason.is_reset() {
            self.stage = TCPConnectionStage::Disconnecting(reason);
        }
        self.isActive = false;
    }

    /// Disconnects for `reason` if still active; says whether it did, in
    /// which case the other transport and the player are to follow. On a
    /// connection already disconnecting, a reason that resets still resets
    /// it at once: the channel can no longer be trusted with a farewell.
    pub fn disconnect(&mut self, reason: DisconnectionReason) -> (r: bool)
        requires
            old(self).wf(),
        ensures
            final(self).wf(),
            r == old(self).isActive,
            !final(self).isActive,
            !r && !reason.resets_at_once() ==> *final(self) == *old(self),
            !r && reason.resets_at_once() ==> *final(self) == (TCPConnection {
                shouldReset: true,
                stage: TCPConnectionStage::Disconnecting(reason),
                ..*old(self)
            }),
            r ==> final(self).stage == TCPConnectionStage::Disconnecting(reason),
            r ==> final(self).shouldReset == (old(self).shouldReset || reason.resets_at_once()),
            r ==> match farewell(reason) {
                Some(m) => final(self).queued() == seq![wire(m)],
                None => final(self).queued() == old(self).queued(),
            },
            final(self).in_flight() == old(self).in_flight(),
            final(self).token == old(self).token,
            final(self).reading() == old(self).reading(),
    {
        if !self.isActive {
            if reason.is_reset() {
                self.shouldReset = true;
                self.stage = TCPConnectionStage::Disconnecting(reason);
            }
            return false;
        }
        self._disconnect(reason);
        true
    }
}

/// The request line and host header that ask the identity server who
/// holds `session_id`.
pub open spec fn identity_request(session_id: Seq<char>) -> Seq<u8> {
    encode_utf8("GET /getUserIDAndName_sessionID="@) + encode_utf8(session_id) + encode_utf8(
        " HTTP/1.1\r\nHost: 89.110.48.1:1941\r\n\r\n"@,
    )
}

/// `b` asks the identity server about some session id.
pub open spec fn is_identity_request(b: Seq<u8>) -> bool {
    exists|sid: Seq<char>| b == identity_request(sid)
}

/// The connection's stage carries a deadline that `now` has reached.
pub open spec fn deadline_passed(stage: TCPConnectionStage, now: i64) -> bool {
    match stage {
        TCPConnectionStage::WaitingSessionID(t) => now >= t,
        TCPConnectionStage::LoadingPlayerDataFromMasterServer(t) => now >= t,
        TCPConnectionStage::LoginOrRegister(t, _) => now >= t,
        TCPConnectionStage::UDPConnectionInitialization(t, _, _) => now >= t,
        _ => false,
    }
}

proof fn lemma_flatten_nonempty(q: Seq<Seq<u8>>, i: int)
    requires
        0 <= i < q.len(),
        q[i].len() > 0,
    ensures
        q.flatten().len() > 0,
    decreases q.len(),
{
    if i == 0 {
    } else {
        lemma_flatten_nonempty(q.drop_first(), i - 1);
    }
}

proof fn lemma_flatten_all_empty(q: Seq<Seq<u8>>)
    requires
        forall|k: int| 0 <= k < q.len() ==> q[k].len() == 0,
    ensures
        q.flatten().len() == 0,
    decreases q.len(),
{
    if q.len() > 0 {
        lemma_flatten_all_empty(q.drop_first());
    }
}

/// What the periodic check at time `now` makes of connection `c`: a
/// stage whose deadline has passed disconnects an active connection with a
/// server-desire farewell, except the identity lookup, which falls back to
/// login or registration; nothing else changes.
pub open spec fn checked(c: TCPConnection, now: i64, c2: TCPConnection) -> bool {
    &&& c2.token == c.token
    &&& c2.shouldReset == c.shouldReset
    &&& c2.in_flight() == c.in_flight()
    &&& c2.reading() == c.reading()
    &&& (c.shouldReset || !deadline_passed(c.stage, now)) ==> c2 == c
    &&& !c.shouldReset && deadline_passed(c.stage, now) ==> match c.stage {
        TCPConnectionStage::LoadingPlayerDataFromMasterServer(_) => {
            &&& c2.stage == TCPConnectionStage::LoginOrRegister(
                deadline(now, STATE_LOGIN_OR_REGISTER_TIMEOUT),
                0,
            )
            &&& c2.queued() == c.queued().push(wire(ServerTcpMsg::LoginOrRegister))
            &&& c2.isActive == c.isActive
        },
        _ => {
            &&& !c2.isActive
            &&& c.isActive ==> (c2.stage matches TCPConnectionStage::Disconnecting(
                DisconnectionReason::ServerDesire(m),
            ) && c2.queued() == seq![wire(ServerTcpMsg::ServerDesire(m@))])
            &&& !c.isActive ==> c2 == c
        },
    }
}

/// The check at time `now` disconnects `c`, and the disconnect is to be
/// passed on.
pub open spec fn times_out(c: TCPConnection, now: i64) -> bool {
    &&& !c.shouldReset
    &&& deadline_passed(c.stage, now)
    &&& !(c.stage is LoadingPlayerDataFromMasterServer)
    &&& c.isActive
}

impl TCPConnection {
    /// The periodic check: a stage whose deadline has passed disconnects
    /// with a server-desire reason, except the identity lookup, which falls
    /// back to login or registration. Says whether it disconnected, in which
    /// case the other transport and the player are to follow.
    pub fn check(&mut self, now: i64) -> (r: bool)
        requires
            old(self).wf(),
        ensures
            final(self).wf(),
            checked(*old(self), now, *final(self)),
            r == times_out(*old(self), now),
            old(self).shouldReset || !deadline_passed(old(self).stage, now) ==> !r && *final(self)
                == *old(self),
            !old(self).shouldReset && deadline_passed(old(self).stage, now) ==> match old(
                self,
            ).stage {
                TCPConnectionStage::LoadingPlayerDataFromMasterServer(_) => {
                    &&& !r
                    &&& final(self).stage == TCPConnectionStage::LoginOrRegister(
                        deadline(now, STATE_LOGIN_OR_REGISTER_TIMEOUT),
                        0,
                    )
                    &&& final(self).queued() == old(self).queued().push(
                        wire(ServerTcpMsg::LoginOrRegister),
                    )
                    &&& final(self).isActive == old(self).isActive
                },
                _ => {
                    &&& r == old(self).isActive
                    &&& !final(self).isActive
                    &&& r ==> (final(self).stage matches TCPConnectionStage::Disconnecting(
                        DisconnectionReason::ServerDesire(m),
                    ) && final(self).queued() == seq![wire(ServerTcpMsg::ServerDesire(m@))])
                },
            },
            final(self).token == old(self).token,
            final(self).in_flight() == old(self).in_flight(),
            final(self).reading() == old(self).reading(),
    {
        if self.shouldReset {
            return false;
        }
        match self.stage {
            TCPConnectionStage::WaitingSessionID(t) => {
                if now >= t {
                    return self.disconnect(
                        DisconnectionReason::ServerDesire("Expectation Session ID timeout".to_string()),
                    );
                }
            },
            TCPConnectionStage::LoadingPlayerDataFromMasterServer(t) => {
                if now >= t {
                    self.stage = TCPConnectionStage::LoginOrRegister(
                        deadline_after(now, STATE_LOGIN_OR_REGISTER_TIMEOUT),
                        0,
                    );
                    self.sendMessage(ServerToClientTCPPacket::LoginOrRegister.pack());
                }
            },
            TCPConnectionStage::LoginOrRegister(t, _) => {
                if now >= t {
                    return self.disconnect(
                        DisconnectionReason::ServerDesire("Expectation Login timeout".to_string()),
                    );
                }
            },
            TCPConnectionStage::UDPConnectionInitialization(t, _, _) => {
                if now >= t {
                    return self.disconnect(
                        DisconnectionReason::ServerDesire(
                            "Initialization UDP Connection timeout".to_string(),
                        ),
                    );
                }
            },
            _ => {},
        }
        false
    }

    /// Handles a packet of a connection that does not play yet. A session
    /// id, while one is awaited, starts the identity lookup: the stage moves
    /// on and the request to send comes back. An empty session id, or one
    /// that comes at another stage, is an error; other packets change
    /// nothing.
    pub fn processPacket(&mut self, packet: &ClientToServerTCPPacket, now: i64) -> (r: Result<
        Option<Vec<u8>>,
        String,
    >)
        requires
            old(self).wf(),
        ensures
            final(self).wf(),
            match packet {
                ClientToServerTCPPacket::SessionID(s) => match old(self).stage {
                    TCPConnectionStage::WaitingSessionID(_) => if s@.len() > 0 {
                        &&& r matches Ok(Some(req)) && req@ == identity_request(s@)
                        &&& final(self).stage
                            == TCPConnectionStage::LoadingPlayerDataFromMasterServer(
                            deadline(now, STATE_LOADING_PLAYER_DATA_FROM_MASTER_SERVER_TIMEOUT),
                        )
                    } else {
                        r matches Err(e) && e@ == "no sessionID"@ && *final(self) == *old(self)
                    },
                    _ => r matches Err(e) && e@ == "unexpected ClientToServerTCPPacket::Session"@
                        && *final(self) == *old(self),
                },
                _ => r matches Ok(None) && *final(self) == *old(self),
            },
            final(self).token == old(self).token,
            final(self).isActive == old(self).isActive,
            final(self).shouldReset == old(self).shouldReset,
            final(self).shouldReregister == old(self).shouldReregister,
            final(self).outgoing() == old(self).outgoing(),
            final(self).queued() == old(self).queued(),
            final(self).in_flight() == old(self).in_flight(),
            final(self).reading() == old(self).reading(),
    {
        match packet {
            ClientToServerTCPPacket::SessionID(session_id) => {
                match self.stage {
                    TCPConnectionStage::WaitingSessionID(_) => {},
                    _ => {
                        return Err("unexpected ClientToServerTCPPacket::Session".to_string());
                    },
                }
                if !session_id.as_str().is_empty() {
                    self.stage = TCPConnectionStage::LoadingPlayerDataFromMasterServer(
                        deadline_after(now, STATE_LOADING_PLAYER_DATA_FROM_MASTER_SERVER_TIMEOUT),
                    );
                    let mut request: Vec<u8> = Vec::new();
                    push_bytes(&mut request, "GET /getUserIDAndName_sessionID=".as_bytes());
                    push_bytes(&mut request, session_id.as_str().as_bytes());
                    push_bytes(
                        &mut request,
                        " HTTP/1.1\r\nHost: 89.110.48.1:1941\r\n\r\n".as_bytes(),
                    );
                    assert(request@ =~= identity_request(session_id@));
                    Ok(Some(request))
                } else {
                    Err("no sessionID".to_string())
                }
            },
            _ => Ok(None),
        }
    }
}

/// The user id and name that an identity answer holds: a map whose
/// `userID` is an unsigned integer and whose `userName` is a string.
pub open spec fn identity_of(v: Value) -> Option<(int, Seq<char>)> {
    match v {
        Value::Dict(_, p) => match (lookup_string(p, "userID"@), lookup_string(p, "userName"@)) {
            (Some(i), Some(n)) => match parse_unsigned(i, usize::MAX as int) {
                Some(id) => Some((id, n)),
                None => None,
            },
            _ => None,
        },
        _ => None,
    }
}

pub open spec fn identity_in(text: Seq<char>) -> Option<(int, Seq<char>)> {
    match parse_text(text) {
        Some(v) => identity_of(v),
        None => None,
    }
}

/// The user id and name of an identity answer's map.
fn identity_fields(root: Dict) -> (r: Result<(usize, String), String>)
    ensures
        match (lookup_string(root.model(), "userID"@), lookup_string(root.model(), "userName"@)) {
            (Some(i), Some(n)) => match parse_unsigned(i, usize::MAX as int) {
                Some(id) => r matches Ok((a, b)) && a == id && b@ == n,
                None => r is Err,
            },
            _ => r is Err,
        },
{
    let id = match root.getStringAs("userID") {
        Ok(id) => id,
        Err(e) => {
            return Err(e);
        },
    };
    let name = match root.getString("userName") {
        Ok(n) => n.clone(),
        Err(e) => {
            return Err(e);
        },
    };
    Ok((id, name))
}

impl TCPConnection {
    /// Takes the identity server's answer: the user id and name move the
    /// connection on to the UDP handshake, and the client learns the handle
    /// to bind its datagrams to. An answer without them is an error and
    /// changes nothing.
    pub fn initializeUDPConnection(&mut self, response: &str, now: i64) -> (r: Result<(), String>)
        requires
            old(self).wf(),
        ensures
            final(self).wf(),
            match identity_in(response@) {
                Some((id, name)) => {
                    &&& r is Ok
                    &&& final(self).stage matches TCPConnectionStage::UDPConnectionInitialization(
                        d,
                        uid,
                        uname,
                    ) && d == deadline(now, STATE_INITIALIZING_UDP_CONNECTION_TIMEOUT) && uid == id
                        && uname@ == name
                    &&& final(self).queued() == old(self).queued().push(
                        wire(ServerTcpMsg::InitializeUDPConnection(old(self).token as nat)),
                    )
                    &&& final(self).token == old(self).token
                    &&& final(self).isActive == old(self).isActive
                    &&& final(self).shouldReset == old(self).shouldReset
                    &&& final(self).in_flight() == old(self).in_flight()
                    &&& final(self).reading() == old(self).reading()
                },
                None => r is Err && *final(self) == *old(self),
            },
    {
        let identity = parse(response, identity_fields);
        let (userID, userName) = match identity {
            Ok(x) => x,
            Err(e) => {
                return Err(e);
            },
        };
        self.stage = TCPConnectionStage::UDPConnectionInitialization(
            deadline_after(now, STATE_INITIALIZING_UDP_CONNECTION_TIMEOUT),
            userID,
            userName,
        );
        self.sendMessage(ServerToClientTCPPacket::InitializeUDPConnection(self.token).pack());
        Ok(())
    }
}

} // verus!
