//! Helpers shared by the method handlers.

pub mod chunk;
