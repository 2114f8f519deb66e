//! An order pool for a block-building node: bundles of recovered
//! transactions, a pure classification layer that decides which
//! transactions of a bundle are required, optional, critical or allowed
//! to fail, and a cheaply clonable pool handle whose operations are
//! registered with an external transport through a narrow, named
//! surface.

pub mod bundle;
pub mod pool;
pub mod surface;
