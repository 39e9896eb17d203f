//! Verified core of a cross-process shared-memory buffer pool.
//!
//! Cooperating processes exchange bulk data through named shared regions
//! and tell each other which buffer they mean by a small integer: the slot
//! of the buffer in a metadata region that all of them map.  This crate is
//! the part of such a pool that decides.  Mapping the regions, performing
//! atomic operations on their words, asking the device driver for memory
//! and sleeping are left to the binding that embeds the crate; what to do,
//! in which order, and what comes of it is settled here and proved.
//!
//! - [`meta`] fixes the layout of the metadata region.
//! - [`protocol`] holds the lock-free slot protocols and [`lifecycle`] the
//!   operations of a pool, each as a step function that names one action at
//!   a time.
//! - [`meta_region`], [`pool`] and [`guard`] hold the region, the pool and
//!   the buffer handle as values.  Their operations run the step functions
//!   to the end on a region that nobody else touches, and state exactly what
//!   that does to the region and what it returns.
//! - [`discipline`] says when a region is well formed and shows that the
//!   operations keep it so; [`interleaved_alloc`] and [`interleaved_free`]
//!   show the same of allocations, and of releases, that run side by side.

pub mod buffer;
pub mod cuda;
pub mod discipline;
pub mod dtype;
pub mod error;
pub mod guard;
pub mod interleaved_alloc;
pub mod interleaved_free;
pub mod lifecycle;
pub mod meta;
pub mod meta_region;
pub mod pool;
pub mod protocol;
pub mod shm;
pub mod storage;
pub mod text;

pub use buffer::BufferData;
pub use cuda::{CudaBuffer, CudaIpcHandle};
pub use dtype::DType;
pub use error::Error;
pub use guard::BufferGuard;
pub use meta::{BufferMeta, MAX_NDIM};
pub use meta_region::MetaRegion;
pub use pool::BufferPool;
pub use shm::SharedMemory;
pub use storage::{AccessMode, StorageType};
