//! A minimal entity-component-system runtime for a frame-stepped game loop.
//!
//! Entities are opaque ids issued by a monotonic counter.  Components are a
//! closed set of typed data records attached to entities.  Systems are units
//! of behaviour run once per frame per phase over the world; they draw
//! through a narrow renderer interface.  All scalar quantities are
//! fixed-point integers so that every computation is exact and verified.

pub mod fixed;
pub mod geometry;
pub mod components;
pub mod storage;
pub mod render;
pub mod state;
pub mod systems;
pub mod world;
