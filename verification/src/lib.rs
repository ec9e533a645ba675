//! The multiplayer server of the game Vangers, as a verified library.
//!
//! The library holds the rules of the server: how bytes become packets, who
//! may create, move, hand over or delete the objects of a game, what a player
//! sees on entering a world, and which clients hear of it. Sockets, tasks and
//! clocks stay with the program around it.

pub mod bytes;
pub mod protocol;
pub mod callback;
pub mod client;
pub mod disconnect;
pub mod events;
pub mod frames;
pub mod game;
pub mod games;
pub mod handshake;
pub mod laws;
pub mod listing;
pub mod player;
pub mod server;
pub mod session;
pub mod vanject;
pub mod writer;
