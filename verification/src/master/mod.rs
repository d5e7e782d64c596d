//! The master's model of its outstations.

pub mod model;
