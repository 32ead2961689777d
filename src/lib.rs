//! Connection core of a multiplayer game server: packet codec, TCP framing,
//! per-connection protocol state machines, the shared session registry, and
//! the small text formats the server reads.

pub mod bigendian;
pub mod packet;
pub mod framing;
pub mod slot_table;
pub mod server;
pub mod tcp_connection;
pub mod udp_connection;
pub mod player;
pub mod text;
pub mod lexer;
pub mod description;
pub mod version;
pub mod game_state;
pub mod http;
pub mod config;
pub mod server_config;
pub mod mod_loader;

