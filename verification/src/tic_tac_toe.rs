//! A complete small game built on the session transport: the three-by-
//! three board, its update types and its backend.

pub mod backend;
pub mod traits_implementation;
