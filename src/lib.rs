//! A 2-D disc physics kernel on fixed-point integers: motion under uniform gravity, walls of
//! a rectangular domain, exhaustive pairwise overlap detection, and sequential impulse-based
//! collision resolution with restitution.

pub mod arith;
pub mod ball;
pub mod collision;
pub mod detect;
pub mod laws;
pub mod motion;
pub mod sim;
