//! A deterministic 2D rigid-body simulator in fixed-point arithmetic.
//!
//! Bodies are pulled by point forces ("tugs"), slowed by friction and moved by a
//! constant environment acceleration, one discrete step at a time.

pub mod scalar;
pub mod trig;
pub mod vector;
pub mod body;
pub mod game;
pub mod laws;
