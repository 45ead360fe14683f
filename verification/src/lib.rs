//! A generic multiplayer game session protocol: wire framing with CRC32
//! checksums, JSON payload codecs, message-sequence tracking with gap
//! detection, the server-side state machine over clients, lobbies and
//! games in progress, the client-side session handler, and a pluggable
//! game-module contract with a tic-tac-toe instance.

pub mod byte_order;
pub mod client;
pub mod client_message_utils;
pub mod common_message_utils;
pub mod enums;
pub mod game_module;
pub mod json;
pub mod payloads;
pub mod server;
pub mod server_message_utils;
pub mod shared_data;
pub mod tic_tac_toe;
