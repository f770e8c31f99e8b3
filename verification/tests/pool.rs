//! Pool-level behaviour: capacity, reserve, growth, reuse, and the
//! zero-length special case.

use xalloc_pool::BufferUsage;
use xalloc_pool::DeviceLimits;
use xalloc_pool::DeviceMemoryAllocError;
use xalloc_pool::XallocCpuBufferPool;

fn loose_limits() -> DeviceLimits {
    DeviceLimits {
        min_uniform_buffer_offset_alignment: 1,
        min_storage_buffer_offset_alignment: 1,
    }
}

fn byte_pool() -> XallocCpuBufferPool {
    XallocCpuBufferPool::upload(1, loose_limits())
}

#[test]
fn capacity_is_zero_before_first_use() {
    let pool = byte_pool();
    assert_eq!(pool.capacity(), 0);
    assert_eq!(pool.num_buffers(), 0);
}

#[test]
fn reserve_allocates_exactly_the_requested_capacity() {
    let mut pool = byte_pool();
    assert_eq!(pool.capacity(), 0);
    pool.reserve(83, true).unwrap();
    assert_eq!(pool.capacity(), 83);
    assert_eq!(pool.num_buffers(), 1);
}

#[test]
fn reserve_is_a_noop_when_capacity_suffices() {
    let mut pool = byte_pool();
    pool.reserve(83, true).unwrap();
    pool.reserve(10, true).unwrap();
    assert_eq!(pool.capacity(), 83);
    assert_eq!(pool.num_buffers(), 1);
    // Even a refusing device does not matter when no allocation is needed.
    pool.reserve(83, false).unwrap();
    assert_eq!(pool.capacity(), 83);
}

#[test]
fn reserve_failure_leaves_capacity_unchanged() {
    let mut pool = byte_pool();
    pool.reserve(5, true).unwrap();
    let r = pool.reserve(100, false);
    assert_eq!(r, Err(DeviceMemoryAllocError::OomError));
    assert_eq!(pool.capacity(), 5);
    assert_eq!(pool.num_buffers(), 1);
}

#[test]
fn acquire_on_empty_pool_fails_when_device_refuses() {
    let mut pool = byte_pool();
    let r = match pool.chunk(2, false) {
        Ok(_) => None,
        Err(e) => Some(e),
    };
    assert_eq!(r, Some(DeviceMemoryAllocError::OomError));
    assert_eq!(pool.capacity(), 0);
    assert_eq!(pool.num_buffers(), 0);
}

#[test]
fn oversized_request_grows_to_twice_the_request() {
    let mut pool = byte_pool();
    pool.reserve(4, true).unwrap();
    // 10 > 4, so the buffer is replaced exactly once and the new capacity is
    // max(2 * 4, 2 * 10) = 20.
    let c = pool.chunk(10, true).unwrap();
    assert_eq!(pool.capacity(), 20);
    assert_eq!(pool.num_buffers(), 2);
    assert_eq!(c.index(), 0);
    assert_eq!(c.buffer_id(), 1);
}

#[test]
fn full_buffer_grows_to_twice_the_capacity() {
    let mut pool = byte_pool();
    pool.reserve(4, true).unwrap();
    let _a = pool.chunk(3, true).unwrap();
    // 3 < 4 but no room is left, so the new capacity is 2 * 4 = 8.
    let b = pool.chunk(3, true).unwrap();
    assert_eq!(pool.capacity(), 8);
    assert_eq!(pool.num_buffers(), 2);
    assert_eq!(b.index(), 0);
}

#[test]
fn capacity_never_shrinks_across_acquires() {
    let mut pool = byte_pool();
    let mut last: usize = 0;
    for _ in 0..20 {
        let _ = pool.chunk(3, true).unwrap();
        assert!(pool.capacity() >= last);
        last = pool.capacity();
    }
}

#[test]
fn chunk_loopback_reuses_released_space_at_the_head() {
    let mut pool = byte_pool();
    pool.reserve(5, true).unwrap();

    let a = pool.chunk(2, true).unwrap();
    assert_eq!(a.index(), 0);
    let b = pool.chunk(2, true).unwrap();
    assert_eq!(b.index(), 2);
    a.release(&mut pool);

    // The tail has only one free element, so the new chunk wraps to index 0.
    let c = pool.chunk(2, true).unwrap();
    assert_eq!(c.index(), 0);
    assert_eq!(pool.capacity(), 5);
    assert_eq!(pool.num_buffers(), 1);
}

#[test]
fn zero_len_chunk_does_not_pollute() {
    let mut pool = byte_pool();
    let z = pool.chunk(0, true).unwrap();
    assert_eq!(z.requested_len(), 0);
    let c = pool.chunk(2, true).unwrap();
    assert_eq!(c.index(), 0);
    assert_eq!(c.requested_len(), 2);
}

#[test]
fn zero_len_chunk_adds_no_record_and_moves_no_cursor() {
    let mut pool = byte_pool();
    pool.reserve(4, true).unwrap();
    let z = pool.chunk(0, true).unwrap();
    assert_eq!(pool.chunk_record_count(z.buffer_id()), 0);
    // The next real chunk is neither blocked nor mis-offset.
    let c = pool.chunk(2, true).unwrap();
    assert_eq!(c.index(), 0);
    assert_eq!(c.align_offset(), 0);
    assert_eq!(pool.chunk_record_count(c.buffer_id()), 1);
}

#[test]
fn try_chunk_never_grows() {
    let mut pool = byte_pool();
    assert!(pool.try_chunk(1).is_none());
    pool.reserve(3, true).unwrap();
    let a = pool.try_chunk(2).unwrap();
    assert_eq!(a.index(), 0);
    // Two more elements do not fit, and the pool must not grow.
    assert!(pool.try_chunk(2).is_none());
    assert_eq!(pool.capacity(), 3);
    assert_eq!(pool.num_buffers(), 1);
}

#[test]
fn try_next_is_empty_on_a_fresh_pool() {
    let mut pool = byte_pool();
    assert!(pool.try_next().is_none());
    pool.reserve(2, true).unwrap();
    let s = pool.try_next().unwrap();
    assert_eq!(s.index(), 0);
}

#[test]
fn next_serves_single_element_subbuffers() {
    let mut pool = byte_pool();
    let s = pool.next(true).unwrap();
    assert_eq!(pool.capacity(), 2);
    assert_eq!(s.index(), 0);
}

#[test]
fn released_subbuffers_keep_the_capacity_stable() {
    let mut pool = byte_pool();
    let mut capacity: Option<usize> = None;
    for _ in 0..64 {
        let s = pool.next(true).unwrap();
        s.release(&mut pool);
        let new_cap = pool.capacity();
        assert!(new_cap >= 1);
        match capacity {
            None => capacity = Some(new_cap),
            Some(c) => assert_eq!(c, new_cap),
        }
    }
}

#[test]
fn absurdly_large_request_reports_out_of_memory() {
    let mut pool = byte_pool();
    let r = match pool.chunk(usize::MAX, true) {
        Ok(_) => None,
        Err(e) => Some(e),
    };
    assert_eq!(r, Some(DeviceMemoryAllocError::OomError));
    assert_eq!(pool.capacity(), 0);
}

#[test]
fn old_buffer_keeps_serving_outstanding_chunks_after_growth() {
    let mut pool = byte_pool();
    pool.reserve(2, true).unwrap();
    let a = pool.chunk(2, true).unwrap();
    assert_eq!(a.buffer_id(), 0);
    // Growth replaces the current buffer, but `a`'s record stays on the old
    // one and can still be locked and released.
    let b = pool.chunk(2, true).unwrap();
    assert_eq!(b.buffer_id(), 1);
    assert!(pool.has_chunk_record(0, 0));
    a.try_gpu_lock(&mut pool).unwrap();
    a.unlock(&mut pool);
    a.release(&mut pool);
    assert!(!pool.has_chunk_record(0, 0));
}

#[test]
fn usage_constructors_build_empty_pools() {
    let limits = loose_limits();
    assert_eq!(XallocCpuBufferPool::new(BufferUsage::none(), 4, limits).capacity(), 0);
    assert_eq!(XallocCpuBufferPool::upload(4, limits).capacity(), 0);
    assert_eq!(XallocCpuBufferPool::download(4, limits).capacity(), 0);
    assert_eq!(XallocCpuBufferPool::uniform_buffer(4, limits).capacity(), 0);
    assert_eq!(XallocCpuBufferPool::vertex_buffer(4, limits).capacity(), 0);
    assert_eq!(XallocCpuBufferPool::indirect_buffer(4, limits).capacity(), 0);
}
