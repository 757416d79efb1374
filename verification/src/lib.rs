//! An encrypted tunnel over TCP.
//!
//! A client offers a SOCKS5 and an HTTP proxy ([`socks5`], [`http`]) and passes
//! each connection on to a server in ChaCha20-Poly1305 frames ([`crypto`],
//! [`frame`], [`stream`]). The first frame names the target ([`address`],
//! [`payload`], [`session`]), or asks for the tunnel device of the server, which
//! then carries IPv4 packets ([`packet`]) while the routes of the client's
//! machine lead there ([`routes`]).
//!
//! The desktop client ([`tunnel`]) runs a proxy engine for a built-in node
//! ([`node`], [`engine`]), keeps the proxy setting of the system aside
//! ([`sysproxy`]) and counts the traffic ([`traffic`]).

pub mod address;
pub mod crypto;
pub mod engine;
pub mod frame;
pub mod http;
pub mod node;
pub mod packet;
pub mod payload;
pub mod routes;
pub mod session;
pub mod socks5;
pub mod stream;
pub mod sysproxy;
pub mod text;
pub mod traffic;
pub mod tunnel;

pub use address::Socks5Addr;
pub use frame::{Frame, MAX_PAYLOAD_LEN, TUN_MODE};
pub use packet::{validate_tun_packet, validate_tun_response, TUN_CLIENT_IP, TUN_MTU};
pub use payload::{pack_addr_payload, unpack_addr_payload};
