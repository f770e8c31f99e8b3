//! A streaming CPU-to-GPU sub-allocation pool.
//!
//! The pool hands out alignment-correct sub-ranges ("chunks") of a backing
//! buffer in ring order, grows the backing buffer when it is exhausted, and
//! tracks CPU and GPU references to every chunk so that a range is reclaimed
//! only once all parties have released it.
//!
//! The device-memory service that provides the physical backing allocation is
//! an external collaborator: its verdict on an allocation request enters the
//! pool operations as an explicit argument, and every bookkeeping decision the
//! pool makes is verified for both possible verdicts.

pub mod alignment;
pub mod cpu_pool;
pub mod laws;

pub use cpu_pool::AccessError;
pub use cpu_pool::BufferUsage;
pub use cpu_pool::DeviceLimits;
pub use cpu_pool::DeviceMemoryAllocError;
pub use cpu_pool::XallocCpuBufferPool;
pub use cpu_pool::XallocCpuBufferPoolChunk;
pub use cpu_pool::XallocCpuBufferPoolSubbuffer;
