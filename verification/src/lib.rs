//! Client-side core of a turn-based multiplayer city-building game.
//!
//! The library holds everything the client decides or computes: the
//! line-delimited JSON wire codec for outgoing commands and incoming
//! answers, the listener dispatch that turns each server answer into
//! game-state updates and presentation notifications, the session
//! connector's redirect handshake, and the shared game-state model.
//! Sockets, threads and the presentation layer live outside and talk
//! to this library through plain values.

pub mod client;
pub mod codec;
pub mod game;
pub mod json;
pub mod listener;
pub mod message;
