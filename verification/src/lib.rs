//! Block-granular access to a raw block device, or to a region of memory
//! standing in for one, staged through buffers aligned to the block size.
//!
//! Block 0 of a store is reserved for a header that marks the store as
//! initialised; data block `b` lives one block further in.

pub mod buffer;
pub mod errors;
pub mod fs;
pub mod handle;
