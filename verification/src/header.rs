//! Layout headers: what a region records of a layout, who is a member of it,
//! and how it is admitted.

use vstd::prelude::*;

pub mod record;
pub mod layout;
pub mod root;

verus! {

/// Participants that one region holds.
pub const PARTICIPANT_CAPACITY: u64 = 63;

/// A part of a layout's header that admission compares.
#[derive(Clone, Copy, Debug, PartialEq, Eq, Structural)]
pub enum LayoutField {
    State,
    Format,
    Profile,
    Magic,
    Revision,
    Schema,
    Region,
    Offset,
    HeaderSize,
    HeaderAlign,
    Extent,
    ExtentAlign,
    InfoSchema,
    InfoRevision,
    InfoSize,
    InfoAlign,
    Size,
    Align,
    Info,
}

#[derive(Clone, Copy, Debug, PartialEq, Eq, Structural)]
pub enum AdmitError {
    Contention,
    Closed,
    DuplicateMember,
    InvalidHeader,
    Mismatch(LayoutField),
}

} // verus!
