//! Wire protocol and server-side rules of a small multiplayer tile game.
//!
//! Clients and server exchange fixed-schema binary packets. Every executable
//! function in this crate carries a contract that Verus proves.

pub mod byte_order;
pub mod cursor;
pub mod game;
pub mod packets;
pub mod session;
pub mod thread_pool;
