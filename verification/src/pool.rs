//! Pools of blocks: size classes, authority over blocks, and their transfer
//! between participants.

pub mod geometry;
pub mod state;
pub mod storage;
pub mod block;
pub mod laws;
pub mod shared;
pub mod sizing;
