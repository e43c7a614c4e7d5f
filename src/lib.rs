//! Packing circles of given radii into a small enclosing circle.
//!
//! All lengths are fixed-point integers: one unit of length is [`point::UNIT`]
//! ticks, so that every geometric predicate is decided exactly.
pub mod angle;
pub mod arith;
pub mod circle;
pub mod evaluate;
pub mod geometry;
pub mod packing;
pub mod point;
pub mod ralgo;
mod random;
