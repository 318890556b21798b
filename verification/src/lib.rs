//! A deterministic rules engine for a grid-based snake game.
//!
//! The engine owns the board geometry, the snake's body, reward placement,
//! scoring, and win/loss detection, and advances the simulation one tick at
//! a time. Rendering and input belong to an embedding host, which drives the
//! engine through [`world::World`] and supplies the random source for reward
//! placement through [`rng::RandomSource`].

pub mod geometry;
pub mod laws;
pub mod model;
pub mod rng;
pub mod world;
