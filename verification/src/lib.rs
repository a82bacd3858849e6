//! Networked state synchronisation for a real-time multiplayer game: the
//! per-peer connection protocol (ordering, acknowledgement, retransmission
//! and round-trip estimation), the table of connections, and a per-entity
//! position history with lookup by time.
//!
//! Nothing here touches the network or a clock. Time is passed in, as
//! nanoseconds on a clock of the caller's choosing, and what is to be
//! transmitted is handed back, so every operation is a function of its
//! arguments.

pub mod address;
pub mod circular_vec;
pub mod connection;
pub mod connection_table;
pub mod debug_timer;
pub mod entity;
pub mod entity_converter;
pub mod message;
pub mod message_receive;
pub mod position;
pub mod position_log;
pub mod position_log_system;
pub mod position_update;
pub mod sequence;
pub mod time;
pub mod timer;
pub mod utils;
