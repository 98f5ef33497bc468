//! A relay hub for client-hosted multiplayer sessions.
//!
//! One peer (the host) runs the authoritative game logic; remote peers
//! (clients) reach it through a relay service that routes opaque binary
//! frames. This crate holds the verified core: the wire protocol, the
//! lobby and handshake of the relay, the per-connection routing rules,
//! the client-side session transport state machine, the host-side timer
//! wheel, and two game backends built on top of them.

pub mod codec;
pub mod handshake;
pub mod lobby;
pub mod protocol;
pub mod relay;
pub mod ternio;
pub mod tic_tac_toe;
pub mod timer;
pub mod transport_layer;
