//! Shared-memory interprocess communication: the core that does not depend on
//! an operating system.

pub mod numeric;
pub mod schema;
pub mod extent;
pub mod msg;
pub mod token;
pub mod talc;
pub mod header;
pub mod queue;
pub mod mem;
pub mod dir;
pub mod channel;
pub mod bytes;
pub mod plain;
pub mod boxed;
pub mod pool;
pub mod session;
pub mod notify;
pub mod process;
pub mod layout;
