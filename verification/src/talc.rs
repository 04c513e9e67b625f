//! The general heap: size-class geometry, chunk management and the word that
//! serializes mutation.

pub mod geometry;
pub mod links;
pub mod avail;
pub mod heap;
pub mod config;
pub mod mutation;
pub mod lock;
pub mod fitting;
