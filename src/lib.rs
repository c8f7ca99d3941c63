//! Authoritative game-state engine for a multiplayer snake server.
//!
//! World coordinates are fixed-point integers counted in ten-thousandths of a
//! world unit, the precision the wire protocol carries.
pub mod bait;
pub mod codec;
pub mod collision;
pub mod command;
pub mod constants;
pub mod engine;
pub mod player;
pub mod random;
pub mod snake;
pub mod stats;
pub mod world;
