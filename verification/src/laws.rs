//! Laws of dispatching, proved of the meaning that the contracts use.

pub mod algebra;
pub mod order;
pub mod steps;
