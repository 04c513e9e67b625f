//! What a layout of one's own needs.

pub use crate::header::layout::{Layout, RcHeader, RecoveryContext, RecoveryHandler};
pub use crate::header::record::{AbiProfile, Status};
pub use crate::msg::Repr;
pub use crate::schema::{
    LayoutContext, LayoutId, LayoutInfo, RegionAdmission, RegionId, SchemaId, SchemaKey,
    SharedSchema,
};
pub use crate::token::Shape;

use crate::channel::duplex::Duplex;
use vstd::prelude::*;

verus! {

/// The handler that recovers channels with headers of type `H`.
pub fn recovery_handler<H: Repr>() -> (handler: RecoveryHandler)
    ensures
        handler == crate::header::layout::handler_of(
            <Duplex<H> as SharedSchema>::schema_spec(),
        ),
{
    RecoveryHandler::of::<Duplex<H>>()
}

} // verus!
