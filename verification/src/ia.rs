//! The players that choose moves by themselves.

pub mod brain;
pub mod monte_carlo_impl;
