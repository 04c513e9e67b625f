//! Bounded queues of a channel.

pub mod control;
pub mod position;
pub mod ring;
pub mod repair;
pub mod order;
pub mod lifecycle;
pub mod delivery;
pub mod padding;
