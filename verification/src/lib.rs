//! Verified core of the Nexus realtime game server: channel routing,
//! match channels, game command framing, matchmaking decisions, rooms and auth rules.
pub mod error;
pub mod text;
pub mod router;
pub mod events;
pub mod match_channels;
pub mod json;
pub mod game_commands;
pub mod realtime;
pub mod clock;
pub mod matchmaking;
pub mod auth;
pub mod notifications;
pub mod rooms;
pub mod connections;
pub mod room_queue;
pub mod realtime_events;
