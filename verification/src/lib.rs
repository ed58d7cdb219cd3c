//! A latch-free-style persistent key-value engine core: a hash index over an
//! append-only log of records, with epoch-tracked sessions and a
//! checkpoint/recovery protocol. Updates append new record versions and
//! install them into the index; deletes append tombstones; recovery rebuilds
//! a store from a checkpoint artifact after validating its consistency.

pub mod epoch;
pub mod faster_status;
pub mod index;
pub mod laws;
pub mod log;
pub mod model;
pub mod store;

pub use faster_status::FasterStatus;
pub use store::Checkpoint;
pub use store::FasterKv;
