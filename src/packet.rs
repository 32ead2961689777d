//! Typed messages of both directions and transports, and their byte codec.
//!
//! A payload starts with the variant's index as a big-endian `u32`. A string
//! field is its UTF-8 length as a big-endian `u64` followed by the bytes; an
//! integer field is a big-endian `u64`. A TCP packet is framed by a
//! big-endian `u32` holding the payload length; a UDP packet is preceded by a
//! sixteen-byte header (session token and timestamp) that the sender fills.

use vstd::prelude::*;
use vstd::slice::slice_subrange;
use vstd::utf8::*;
use crate::bigendian::{
    be_u32, be_u64, lemma_u32_round_trip, lemma_u64_round_trip, read_be_u32, read_be_u64, u32_bytes, u32_to_be,
    u64_bytes, u64_to_be,
};

verus! {

broadcast use vstd::utf8::group_utf8_lib;

/// Largest payload of a message sent to the server.
pub const MESSAGE_TO_SERVER_LIMIT: usize = 16384;

/// Largest payload of a message sent to a client.
pub const MESSAGE_TO_CLIENT_LIMIT: usize = 65536;

/// Length of the header in front of every UDP packet.
pub const UDP_HEADER_LENGTH: usize = 16;

pub enum ClientToServerTCPPacket {
    ClientError(String),
    ClientDesire(String),
    SessionID(String),
}

pub enum ServerToClientTCPPacket {
    ServerShutdown,
    ServerError(String),
    ServerDesire(String),
    LoginOrRegister,
    InitializeUDPConnection(usize),
}

pub enum ClientToServerUDPPacket {
    Initialization(usize),
}

#[derive(PartialEq, Eq, Structural, Copy, Clone)]
pub enum ClientToServerUDPPacketAcception {
    Initialization,
}

/// A client-to-server TCP message as a value.
pub ghost enum ClientTcpMsg {
    ClientError(Seq<char>),
    ClientDesire(Seq<char>),
    SessionID(Seq<char>),
}

/// A server-to-client TCP message as a value.
pub ghost enum ServerTcpMsg {
    ServerShutdown,
    ServerError(Seq<char>),
    ServerDesire(Seq<char>),
    LoginOrRegister,
    InitializeUDPConnection(nat),
}

/// A client-to-server UDP message as a value.
pub ghost enum ClientUdpMsg {
    Initialization(nat),
}

impl View for ClientToServerTCPPacket {
    type V = ClientTcpMsg;

    open spec fn view(&self) -> ClientTcpMsg {
        match self {
            ClientToServerTCPPacket::ClientError(s) => ClientTcpMsg::ClientError(s@),
            ClientToServerTCPPacket::ClientDesire(s) => ClientTcpMsg::ClientDesire(s@),
            ClientToServerTCPPacket::SessionID(s) => ClientTcpMsg::SessionID(s@),
        }
    }
}

impl View for ServerToClientTCPPacket {
    type V = ServerTcpMsg;

    open spec fn view(&self) -> ServerTcpMsg {
        match self {
            ServerToClientTCPPacket::ServerShutdown => ServerTcpMsg::ServerShutdown,
            ServerToClientTCPPacket::ServerError(s) => ServerTcpMsg::ServerError(s@),
            ServerToClientTCPPacket::ServerDesire(s) => ServerTcpMsg::ServerDesire(s@),
            ServerToClientTCPPacket::LoginOrRegister => ServerTcpMsg::LoginOrRegister,
            ServerToClientTCPPacket::InitializeUDPConnection(h) => ServerTcpMsg::InitializeUDPConnection(
                *h as nat,
            ),
        }
    }
}

impl View for ClientToServerUDPPacket {
    type V = ClientUdpMsg;

    open spec fn view(&self) -> ClientUdpMsg {
        match self {
            ClientToServerUDPPacket::Initialization(h) => ClientUdpMsg::Initialization(*h as nat),
        }
    }
}

// ---------------------------------------------------------------------------
// The byte format.

/// A string field: its UTF-8 length, then its UTF-8 bytes.
pub open spec fn string_field(s: Seq<char>) -> Seq<u8> {
    u64_bytes(encode_utf8(s).len() as u64) + encode_utf8(s)
}

/// An integer field.
pub open spec fn integer_field(n: nat) -> Seq<u8> {
    u64_bytes(n as u64)
}

pub open spec fn client_tcp_payload(m: ClientTcpMsg) -> Seq<u8> {
    match m {
        ClientTcpMsg::ClientError(s) => u32_bytes(0) + string_field(s),
        ClientTcpMsg::ClientDesire(s) => u32_bytes(1) + string_field(s),
        ClientTcpMsg::SessionID(s) => u32_bytes(2) + string_field(s),
    }
}

pub open spec fn server_tcp_payload(m: ServerTcpMsg) -> Seq<u8> {
    match m {
        ServerTcpMsg::ServerShutdown => u32_bytes(0),
        ServerTcpMsg::ServerError(s) => u32_bytes(1) + string_field(s),
        ServerTcpMsg::ServerDesire(s) => u32_bytes(2) + string_field(s),
        ServerTcpMsg::LoginOrRegister => u32_bytes(3),
        ServerTcpMsg::InitializeUDPConnection(h) => u32_bytes(4) + integer_field(h),
    }
}

pub open spec fn client_udp_payload(m: ClientUdpMsg) -> Seq<u8> {
    match m {
        ClientUdpMsg::Initialization(h) => u32_bytes(0) + integer_field(h),
    }
}

/// A TCP frame: the payload's length, then the payload; a payload over
/// `limit` bytes is replaced by an empty frame of length zero.
pub open spec fn tcp_frame(payload: Seq<u8>, limit: nat) -> Seq<u8> {
    if payload.len() <= limit {
        u32_bytes(payload.len() as u32) + payload
    } else {
        u32_bytes(0)
    }
}

/// The string field at offset `at` of `b`, if one stands there in full.
pub open spec fn decode_string_at(b: Seq<u8>, at: int) -> Option<Seq<char>> {
    if b.len() < at + 8 {
        None
    } else {
        let n = be_u64(b.subrange(at, at + 8));
        if b.len() < at + 8 + n || !valid_utf8(b.subrange(at + 8, at + 8 + n)) {
            None
        } else {
            Some(decode_utf8(b.subrange(at + 8, at + 8 + n)))
        }
    }
}

/// The integer field at offset `at` of `b`, if one stands there in full and
/// fits in a `usize`.
pub open spec fn decode_integer_at(b: Seq<u8>, at: int) -> Option<nat> {
    if b.len() < at + 8 || be_u64(b.subrange(at, at + 8)) > usize::MAX {
        None
    } else {
        Some(be_u64(b.subrange(at, at + 8)) as nat)
    }
}

pub open spec fn decode_client_tcp(b: Seq<u8>) -> Option<ClientTcpMsg> {
    if b.len() < 4 {
        None
    } else {
        let tag = be_u32(b);
        match decode_string_at(b, 4) {
            Some(s) => if tag == 0 {
                Some(ClientTcpMsg::ClientError(s))
            } else if tag == 1 {
                Some(ClientTcpMsg::ClientDesire(s))
            } else if tag == 2 {
                Some(ClientTcpMsg::SessionID(s))
            } else {
                None
            },
            None => None,
        }
    }
}

pub open spec fn decode_server_tcp(b: Seq<u8>) -> Option<ServerTcpMsg> {
    if b.len() < 4 {
        None
    } else {
        let tag = be_u32(b);
        if tag == 0 {
            Some(ServerTcpMsg::ServerShutdown)
        } else if tag == 1 || tag == 2 {
            match decode_string_at(b, 4) {
                Some(s) => if tag == 1 {
                    Some(ServerTcpMsg::ServerError(s))
                } else {
                    Some(ServerTcpMsg::ServerDesire(s))
                },
                None => None,
            }
        } else if tag == 3 {
            Some(ServerTcpMsg::LoginOrRegister)
        } else if tag == 4 {
            match decode_integer_at(b, 4) {
                Some(h) => Some(ServerTcpMsg::InitializeUDPConnection(h)),
                None => None,
            }
        } else {
            None
        }
    }
}

pub open spec fn decode_client_udp(b: Seq<u8>) -> Option<ClientUdpMsg> {
    if b.len() < 4 || be_u32(b) != 0 {
        None
    } else {
        match decode_integer_at(b, 4) {
            Some(h) => Some(ClientUdpMsg::Initialization(h)),
            None => None,
        }
    }
}

// ---------------------------------------------------------------------------
// Building blocks.

/// Relies on `std::str::from_utf8`: it accepts exactly the valid UTF-8 byte
/// strings, and then holds the characters they encode.
#[verifier::external_body]
fn utf8_to_string(b: &[u8]) -> (r: Option<String>)
    ensures
        r is Some <==> valid_utf8(b@),
        r matches Some(s) ==> s@ == decode_utf8(b@),
{
    match std::str::from_utf8(b) {
        Ok(s) => Some(s.to_string()),
        Err(_) => None,
    }
}

pub(crate) fn push_bytes(out: &mut Vec<u8>, b: &[u8])
    ensures
        final(out)@ == old(out)@ + b@,
{
    let mut i: usize = 0;
    while i < b.len()
        invariant
            0 <= i <= b@.len(),
            out@ == old(out)@ + b@.subrange(0, i as int),
        decreases b@.len() - i,
    {
        out.push(b[i]);
        i = i + 1;
        assert(b@.subrange(0, i as int) =~= b@.subrange(0, i - 1) + seq![b@[i - 1]]);
    }
    assert(b@.subrange(0, i as int) =~= b@);
}

fn push_string_field(out: &mut Vec<u8>, s: &String)
    ensures
        final(out)@ == old(out)@ + string_field(s@),
{
    let bytes = s.as_str().as_bytes();
    let mut len = u64_to_be(bytes.len() as u64);
    out.append(&mut len);
    push_bytes(out, bytes);
    assert(final(out)@ =~= old(out)@ + string_field(s@));
}

fn push_integer_field(out: &mut Vec<u8>, n: usize)
    ensures
        final(out)@ == old(out)@ + integer_field(n as nat),
{
    let mut b = u64_to_be(n as u64);
    out.append(&mut b);
}

fn read_string_at(b: &[u8], at: usize) -> (r: Option<String>)
    requires
        at <= b@.len(),
    ensures
        match (r, decode_string_at(b@, at as int)) {
            (Some(s), Some(t)) => s@ == t,
            (None, None) => true,
            _ => false,
        },
{
    if b.len() - at < 8 {
        return None;
    }
    let n = read_be_u64(slice_subrange(b, at, at + 8));
    if n > (b.len() - at - 8) as u64 {
        return None;
    }
    let start = at + 8;
    let end = start + n as usize;
    utf8_to_string(slice_subrange(b, start, end))
}

fn read_integer_at(b: &[u8], at: usize) -> (r: Option<usize>)
    requires
        at <= b@.len(),
    ensures
        match (r, decode_integer_at(b@, at as int)) {
            (Some(n), Some(m)) => n == m,
            (None, None) => true,
            _ => false,
        },
{
    if b.len() - at < 8 {
        return None;
    }
    let n = read_be_u64(slice_subrange(b, at, at + 8));
    if n > usize::MAX as u64 {
        // A handle that this machine cannot hold is no handle.
        return None;
    }
    Some(n as usize)
}

fn frame(payload: Vec<u8>, limit: usize) -> (r: Vec<u8>)
    requires
        limit <= u32::MAX,
    ensures
        r@ == tcp_frame(payload@, limit as nat),
{
    let mut payload = payload;
    if payload.len() <= limit {
        let mut out = u32_to_be(payload.len() as u32);
        out.append(&mut payload);
        out
    } else {
        u32_to_be(0)
    }
}

impl ClientToServerTCPPacket {
    /// The framed bytes of this message: an empty frame if its payload
    /// exceeds the limit of messages to the server.
    pub fn pack(&self) -> (r: Vec<u8>)
        ensures
            r@ == tcp_frame(client_tcp_payload(self@), MESSAGE_TO_SERVER_LIMIT as nat),
    {
        let mut payload: Vec<u8>;
        match self {
            ClientToServerTCPPacket::ClientError(s) => {
                payload = u32_to_be(0);
                push_string_field(&mut payload, s);
            },
            ClientToServerTCPPacket::ClientDesire(s) => {
                payload = u32_to_be(1);
                push_string_field(&mut payload, s);
            },
            ClientToServerTCPPacket::SessionID(s) => {
                payload = u32_to_be(2);
                push_string_field(&mut payload, s);
            },
        }
        frame(payload, MESSAGE_TO_SERVER_LIMIT)
    }

    /// Decodes a payload (the bytes of a frame after its length).
    pub fn unpack(message: &Vec<u8>) -> (r: Result<ClientToServerTCPPacket, &'static str>)
        ensures
            match r {
                Ok(p) => decode_client_tcp(message@) == Some(p@),
                Err(e) => decode_client_tcp(message@) is None && e@ == "deserialization error"@,
            },
    {
        let b = message.as_slice();
        if b.len() < 4 {
            return Err("deserialization error");
        }
        let tag = read_be_u32(b);
        if tag > 2 {
            return Err("deserialization error");
        }
        match read_string_at(b, 4) {
            Some(s) => {
                if tag == 0 {
                    Ok(ClientToServerTCPPacket::ClientError(s))
                } else if tag == 1 {
                    Ok(ClientToServerTCPPacket::ClientDesire(s))
                } else {
                    Ok(ClientToServerTCPPacket::SessionID(s))
                }
            },
            None => Err("deserialization error"),
        }
    }
}

impl ServerToClientTCPPacket {
    /// The framed bytes of this message: an empty frame if its payload
    /// exceeds the limit of messages to a client.
    pub fn pack(&self) -> (r: Vec<u8>)
        ensures
            r@ == tcp_frame(server_tcp_payload(self@), MESSAGE_TO_CLIENT_LIMIT as nat),
    {
        let mut payload: Vec<u8>;
        match self {
            ServerToClientTCPPacket::ServerShutdown => {
                payload = u32_to_be(0);
            },
            ServerToClientTCPPacket::ServerError(s) => {
                payload = u32_to_be(1);
                push_string_field(&mut payload, s);
            },
            ServerToClientTCPPacket::ServerDesire(s) => {
                payload = u32_to_be(2);
                push_string_field(&mut payload, s);
            },
            ServerToClientTCPPacket::LoginOrRegister => {
                payload = u32_to_be(3);
            },
            ServerToClientTCPPacket::InitializeUDPConnection(h) => {
                payload = u32_to_be(4);
                push_integer_field(&mut payload, *h);
            },
        }
        frame(payload, MESSAGE_TO_CLIENT_LIMIT)
    }

    /// Decodes a payload (the bytes of a frame after its length).
    pub fn unpack(message: &Vec<u8>) -> (r: Result<ServerToClientTCPPacket, String>)
        ensures
            match r {
                Ok(p) => decode_server_tcp(message@) == Some(p@),
                Err(e) => decode_server_tcp(message@) is None && e@ == "deserialization error"@,
            },
    {
        let b = message.as_slice();
        if b.len() < 4 {
            return Err("deserialization error".to_string());
        }
        let tag = read_be_u32(b);
        if tag == 0 {
            Ok(ServerToClientTCPPacket::ServerShutdown)
        } else if tag == 1 || tag == 2 {
            match read_string_at(b, 4) {
                Some(s) => {
                    if tag == 1 {
                        Ok(ServerToClientTCPPacket::ServerError(s))
                    } else {
                        Ok(ServerToClientTCPPacket::ServerDesire(s))
                    }
                },
                None => Err("deserialization error".to_string()),
            }
        } else if tag == 3 {
            Ok(ServerToClientTCPPacket::LoginOrRegister)
        } else if tag == 4 {
            match read_integer_at(b, 4) {
                Some(h) => Ok(ServerToClientTCPPacket::InitializeUDPConnection(h)),
                None => Err("deserialization error".to_string()),
            }
        } else {
            Err("deserialization error".to_string())
        }
    }
}

impl ClientToServerUDPPacket {
    /// The datagram of this message: a zeroed header for the caller to fill
    /// with the session token and timestamp, then the payload.
    pub fn pack(&self) -> (r: Result<Vec<u8>, String>)
        ensures
            r matches Ok(d) && d@ == Seq::new(UDP_HEADER_LENGTH as nat, |i: int| 0u8)
                + client_udp_payload(self@),
    {
        let mut datagram: Vec<u8> = vec![0u8; UDP_HEADER_LENGTH];
        match self {
            ClientToServerUDPPacket::Initialization(h) => {
                let mut tag = u32_to_be(0);
                datagram.append(&mut tag);
                push_integer_field(&mut datagram, *h);
            },
        }
        assert(datagram@ =~= Seq::new(UDP_HEADER_LENGTH as nat, |i: int| 0u8) + client_udp_payload(
            self@,
        ));
        Ok(datagram)
    }

    /// Decodes the payload of a datagram, which follows its header.
    pub fn unpack(message: &Vec<u8>) -> (r: Result<ClientToServerUDPPacket, &'static str>)
        requires
            message@.len() >= UDP_HEADER_LENGTH,
        ensures
            match r {
                Ok(p) => decode_client_udp(message@.skip(UDP_HEADER_LENGTH as int)) == Some(p@),
                Err(e) => decode_client_udp(message@.skip(UDP_HEADER_LENGTH as int)) is None
                    && e@ == "deserialization error"@,
            },
    {
        let b = slice_subrange(message.as_slice(), UDP_HEADER_LENGTH, message.len());
        assert(b@ =~= message@.skip(UDP_HEADER_LENGTH as int));
        if b.len() < 4 || read_be_u32(b) != 0 {
            return Err("deserialization error");
        }
        match read_integer_at(b, 4) {
            Some(h) => Ok(ClientToServerUDPPacket::Initialization(h)),
            None => Err("deserialization error"),
        }
    }

    /// The session token: the first eight bytes of the datagram.
    pub fn unpackSession(message: &Vec<u8>) -> (r: u64)
        requires
            message@.len() >= 8,
        ensures
            r == be_u64(message@),
    {
        read_be_u64(message.as_slice())
    }

    /// The client's timestamp: the second eight bytes of the datagram.
    pub fn unpackTime(message: &Vec<u8>) -> (r: u64)
        requires
            message@.len() >= UDP_HEADER_LENGTH,
        ensures
            r == be_u64(message@.subrange(8, 16)),
    {
        read_be_u64(slice_subrange(message.as_slice(), 8, UDP_HEADER_LENGTH))
    }
}

// ---------------------------------------------------------------------------
// Round trips.

/// A string whose UTF-8 form has a length that a `usize` holds, as every
/// `String`'s does.
pub open spec fn fits(s: Seq<char>) -> bool {
    encode_utf8(s).len() <= usize::MAX
}

pub open spec fn client_tcp_fits(m: ClientTcpMsg) -> bool {
    match m {
        ClientTcpMsg::ClientError(s) => fits(s),
        ClientTcpMsg::ClientDesire(s) => fits(s),
        ClientTcpMsg::SessionID(s) => fits(s),
    }
}

pub open spec fn server_tcp_fits(m: ServerTcpMsg) -> bool {
    match m {
        ServerTcpMsg::ServerError(s) => fits(s),
        ServerTcpMsg::ServerDesire(s) => fits(s),
        ServerTcpMsg::InitializeUDPConnection(h) => h <= usize::MAX,
        _ => true,
    }
}

proof fn lemma_tag(tag: u32, rest: Seq<u8>)
    ensures
        (u32_bytes(tag) + rest).len() >= 4,
        be_u32(u32_bytes(tag) + rest) == tag,
{
    lemma_u32_round_trip(tag);
    let b = u32_bytes(tag) + rest;
    assert(b[0] == u32_bytes(tag)[0] && b[1] == u32_bytes(tag)[1] && b[2] == u32_bytes(tag)[2]
        && b[3] == u32_bytes(tag)[3]);
}

proof fn lemma_string_field(tag: u32, s: Seq<char>)
    requires
        fits(s),
    ensures
        decode_string_at(u32_bytes(tag) + string_field(s), 4) == Some(s),
{
    let e = encode_utf8(s);
    let n = e.len() as u64;
    lemma_u64_round_trip(n);
    lemma_u32_round_trip(tag);
    let b = u32_bytes(tag) + string_field(s);
    assert(b.subrange(4, 12) =~= u64_bytes(n));
    assert(b.subrange(12, 12 + e.len() as int) =~= e);
}

proof fn lemma_integer_field(tag: u32, h: nat)
    requires
        h <= usize::MAX,
    ensures
        decode_integer_at(u32_bytes(tag) + integer_field(h), 4) == Some(h),
{
    lemma_u64_round_trip(h as u64);
    lemma_u32_round_trip(tag);
    let b = u32_bytes(tag) + integer_field(h);
    assert(b.subrange(4, 12) =~= u64_bytes(h as u64));
}

/// Decoding the payload of a client-to-server TCP message gives the message
/// back, and so does decoding what follows the length in its frame, when the
/// payload is within the limit.
pub proof fn lemma_client_tcp_round_trip(m: ClientTcpMsg)
    requires
        client_tcp_fits(m),
    ensures
        decode_client_tcp(client_tcp_payload(m)) == Some(m),
        client_tcp_payload(m).len() <= MESSAGE_TO_SERVER_LIMIT ==> decode_client_tcp(
            tcp_frame(client_tcp_payload(m), MESSAGE_TO_SERVER_LIMIT as nat).skip(4),
        ) == Some(m),
{
    let p = client_tcp_payload(m);
    match m {
        ClientTcpMsg::ClientError(s) => {
            lemma_tag(0, string_field(s));
            lemma_string_field(0, s);
        },
        ClientTcpMsg::ClientDesire(s) => {
            lemma_tag(1, string_field(s));
            lemma_string_field(1, s);
        },
        ClientTcpMsg::SessionID(s) => {
            lemma_tag(2, string_field(s));
            lemma_string_field(2, s);
        },
    }
    lemma_u32_round_trip(p.len() as u32);
    assert((u32_bytes(p.len() as u32) + p).skip(4) =~= p);
}

/// Decoding the payload of a server-to-client TCP message gives the message
/// back, and so does decoding what follows the length in its frame, when the
/// payload is within the limit.
pub proof fn lemma_server_tcp_round_trip(m: ServerTcpMsg)
    requires
        server_tcp_fits(m),
    ensures
        decode_server_tcp(server_tcp_payload(m)) == Some(m),
        server_tcp_payload(m).len() <= MESSAGE_TO_CLIENT_LIMIT ==> decode_server_tcp(
            tcp_frame(server_tcp_payload(m), MESSAGE_TO_CLIENT_LIMIT as nat).skip(4),
        ) == Some(m),
{
    let p = server_tcp_payload(m);
    match m {
        ServerTcpMsg::ServerShutdown => {
            lemma_tag(0, Seq::empty());
            assert(u32_bytes(0) + Seq::<u8>::empty() =~= u32_bytes(0));
        },
        ServerTcpMsg::ServerError(s) => {
            lemma_tag(1, string_field(s));
            lemma_string_field(1, s);
        },
        ServerTcpMsg::ServerDesire(s) => {
            lemma_tag(2, string_field(s));
            lemma_string_field(2, s);
        },
        ServerTcpMsg::LoginOrRegister => {
            lemma_tag(3, Seq::empty());
            assert(u32_bytes(3) + Seq::<u8>::empty() =~= u32_bytes(3));
        },
        ServerTcpMsg::InitializeUDPConnection(h) => {
            lemma_tag(4, integer_field(h));
            lemma_integer_field(4, h);
        },
    }
    lemma_u32_round_trip(p.len() as u32);
    assert((u32_bytes(p.len() as u32) + p).skip(4) =~= p);
}

/// Decoding what follows the header of a client-to-server datagram gives
/// the message back.
pub proof fn lemma_client_udp_round_trip(m: ClientUdpMsg, header: Seq<u8>)
    requires
        m matches ClientUdpMsg::Initialization(h) && h <= usize::MAX,
        header.len() == UDP_HEADER_LENGTH,
    ensures
        decode_client_udp((header + client_udp_payload(m)).skip(UDP_HEADER_LENGTH as int)) == Some(m),
{
    match m {
        ClientUdpMsg::Initialization(h) => {
            lemma_tag(0, integer_field(h));
            lemma_integer_field(0, h);
        },
    }
    assert((header + client_udp_payload(m)).skip(UDP_HEADER_LENGTH as int) =~= client_udp_payload(m));
}

} // verus!
