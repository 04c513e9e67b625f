//! The two sides of a channel.

use crate::queue::lifecycle::Route;
use vstd::prelude::*;

verus! {

/// A side of a channel: each sends in a direction of its own.
#[derive(Clone, Copy, Debug, PartialEq, Eq, Structural)]
pub enum Side {
    Left,
    Right,
}

/// How a channel is asked for.
#[derive(Clone, Copy, Debug, PartialEq, Eq, Structural)]
pub struct Config {
    capacity: u64,
}

/// The side across.
pub open spec fn across(side: Side) -> Side {
    match side {
        Side::Left => Side::Right,
        Side::Right => Side::Left,
    }
}

/// The direction in which a side sends.
pub open spec fn sends_in(side: Side) -> int {
    match side {
        Side::Left => 0,
        Side::Right => 1,
    }
}

impl Side {
    pub fn opposite(self) -> (side: Self)
        ensures
            side == across(self),
    {
        match self {
            Side::Left => Side::Right,
            Side::Right => Side::Left,
        }
    }

    /// The fields of the lifecycle byte of the direction in which a side sends.
    pub fn route(self, owner: u8) -> (route: Route)
        ensures
            route == super::role::route_spec(sends_in(self), owner),
    {
        match self {
            Side::Left => super::role::route(0, owner),
            Side::Right => super::role::route(1, owner),
        }
    }

    /// The directions in which a side sends and receives.
    pub fn endpoints(self) -> (directions: (u8, u8))
        ensures
            directions.0 == sends_in(self),
            directions.1 == sends_in(across(self)),
    {
        match self {
            Side::Left => (0, 1),
            Side::Right => (1, 0),
        }
    }
}

impl Config {
    pub closed spec fn capacity_spec(self) -> u64 {
        self.capacity
    }

    pub fn new(capacity: u64) -> (conf: Self)
        ensures
            conf.capacity_spec() == capacity,
    {
        Config { capacity }
    }

    pub fn capacity(&self) -> (capacity: u64)
        ensures
            capacity == self.capacity_spec(),
    {
        self.capacity
    }
}

/// What one side sends the other receives, and the two directions share no field
/// of the lifecycle byte.
pub proof fn law_sides_face_each_other(side: Side, owner: u8)
    ensures
        across(across(side)) == side,
        across(side) != side,
        sends_in(across(side)) == 1 - sends_in(side),
        ({
            let mine = super::role::route_spec(sends_in(side), owner);
            let other = super::role::route_spec(sends_in(across(side)), owner);
            &&& mine.send_field != other.send_field
            &&& mine.recv_field != other.recv_field
            &&& mine.send_field != other.recv_field
            &&& mine.recv_field != other.send_field
            &&& mine.send_field != mine.recv_field
        }),
{
}

} // verus!
