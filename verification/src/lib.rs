//! Verified core of a small multiplayer game: its keyed tables, its
//! network protocol, its server and client session logic, and the HTTP
//! request handling of its web site.

pub mod keymap;
pub mod protocol;
pub mod random;
pub mod server;
pub mod web;
pub mod frontend;
pub mod client;
