//! A real-time presence relay: a single coordinator owns the table of
//! connected players and their last reported positions, per-connection
//! session state machines bridge the network to it, and a compact binary
//! frame format carries the events in both directions.

pub mod client_data;
pub mod codec;
pub mod game_world;
pub mod message_types;
pub mod game_server;
pub mod peer;
