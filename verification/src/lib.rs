//! The logic of an OpenVPN-compatible server: packet formats, key derivation,
//! control- and data-channel protection, sessions and addressing.

pub mod addr;
pub mod addresses;
pub mod codec;
pub mod config;
pub mod control_channel;
pub mod control_plane;
pub mod crypto;
pub mod envelope;
pub mod mac;
pub mod masquerade;
pub mod prf;
pub mod protocol;
pub mod push;
pub mod random;
pub mod replay;
pub mod server;
pub mod session;
pub mod static_key;
pub mod text;
pub mod tls;
pub mod tls_auth;
pub mod tls_config;
pub mod tls_crypt;
pub mod transport;
pub mod tun_dev;
