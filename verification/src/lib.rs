//! Laying out several arrays in one contiguous allocation.
pub mod chain;
pub mod guard;
pub mod guarded_slice;
pub mod layout;
pub mod single_allocation;
pub mod subscriber;

pub use chain::ChainNode;
pub use guard::{Allocation, Global, Guard};
pub use guarded_slice::{GuardedBuilder, GuardedBuilderInner};
pub use layout::{AllocError, AllocLayout};
pub use single_allocation::SingleAllocation;
pub use subscriber::Subscriber;
