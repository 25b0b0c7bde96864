//! An in-memory registry that issues 128-bit identities and throttles how
//! often each identity may hit a named endpoint.

pub mod catalog;
pub mod clock;
pub mod endpoint;
pub mod guarantees;
pub mod ids;
pub mod model;
pub mod random;
pub mod role;
pub mod usage;

pub use crate::clock::get_unix_epoch;
pub use crate::endpoint::Endpoint;
pub use crate::ids::Ids;
pub use crate::role::Role;
pub use crate::usage::Usage;
