//! A grid-based snake simulation: the deterministic core of the game, with
//! every rule stated as a contract and proved.
//!
//! The crate holds no engine, no clock and no source of randomness. A frame
//! loop outside it polls the keys, keeps the timers and draws the sprites; it
//! hands this crate plain values and reads the entity table back.

pub mod grid;
pub mod heading;
pub mod entity;
pub mod world;
pub mod game;
pub mod laws;
