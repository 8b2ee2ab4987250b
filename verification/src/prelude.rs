//! Convenience re-exports: both pools, their leases, the state they work on and
//! the counters.

pub use crate::buffer::{BufferPool, SharedPooled, SharedPooledOwned};
pub use crate::inner::PoolInner;
pub use crate::local::{LocalPooled, ThreadLocalPool};
pub use crate::registry::{Lives, Registry};
pub use crate::stats::PoolStats;
