//! Chunk-handle behaviour: GPU-lock bracketing, reference counting, conflict
//! keys, and alignment of the served byte offsets.

use xalloc_pool::AccessError;
use xalloc_pool::DeviceLimits;
use xalloc_pool::XallocCpuBufferPool;

fn loose_limits() -> DeviceLimits {
    DeviceLimits {
        min_uniform_buffer_offset_alignment: 1,
        min_storage_buffer_offset_alignment: 1,
    }
}

#[test]
fn try_gpu_lock_is_exclusive() {
    let mut pool = XallocCpuBufferPool::upload(1, loose_limits());
    let a = pool.chunk(2, true).unwrap();
    assert_eq!(a.try_gpu_lock(&mut pool), Ok(()));
    // A second lock without an intervening release must be refused.
    assert_eq!(a.try_gpu_lock(&mut pool), Err(AccessError::AlreadyInUse));
    a.unlock(&mut pool);
    assert_eq!(a.try_gpu_lock(&mut pool), Ok(()));
    a.unlock(&mut pool);
    a.release(&mut pool);
}

#[test]
fn gpu_lock_can_be_shared_once_held() {
    let mut pool = XallocCpuBufferPool::upload(1, loose_limits());
    let a = pool.chunk(2, true).unwrap();
    assert_eq!(a.try_gpu_lock(&mut pool), Ok(()));
    a.increase_gpu_lock(&mut pool);
    a.unlock(&mut pool);
    // One lock is still held.
    assert_eq!(a.try_gpu_lock(&mut pool), Err(AccessError::AlreadyInUse));
    a.unlock(&mut pool);
    assert_eq!(a.try_gpu_lock(&mut pool), Ok(()));
    a.unlock(&mut pool);
    a.release(&mut pool);
}

#[test]
fn zero_len_chunk_gpu_lock_always_succeeds() {
    let mut pool = XallocCpuBufferPool::upload(1, loose_limits());
    let z = pool.chunk(0, true).unwrap();
    assert_eq!(z.try_gpu_lock(&mut pool), Ok(()));
    assert_eq!(z.try_gpu_lock(&mut pool), Ok(()));
    z.release(&mut pool);
}

#[test]
fn zero_len_chunk_shared_gpu_lock_is_a_noop() {
    let mut pool = XallocCpuBufferPool::upload(1, loose_limits());
    let z = pool.chunk(0, true).unwrap();
    z.increase_gpu_lock(&mut pool);
    z.unlock(&mut pool);
    assert_eq!(z.try_gpu_lock(&mut pool), Ok(()));
    z.release(&mut pool);
}

#[test]
fn non_final_release_may_leave_a_gpu_lock_outstanding() {
    let mut pool = XallocCpuBufferPool::upload(1, loose_limits());
    let a = pool.chunk(2, true).unwrap();
    let b = a.clone_chunk(&mut pool);
    let bid = a.buffer_id();
    let idx = a.index();
    assert_eq!(a.try_gpu_lock(&mut pool), Ok(()));
    // Releasing one of two handles is fine while the GPU still reads the
    // range; only the final release demands a zero GPU count.
    a.release(&mut pool);
    assert!(pool.has_chunk_record(bid, idx));
    b.unlock(&mut pool);
    b.release(&mut pool);
    assert!(!pool.has_chunk_record(bid, idx));
}

#[test]
fn cloned_handles_release_the_range_exactly_once() {
    let mut pool = XallocCpuBufferPool::upload(1, loose_limits());
    pool.reserve(4, true).unwrap();
    let a = pool.chunk(2, true).unwrap();
    let bid = a.buffer_id();
    let idx = a.index();
    let b = a.clone_chunk(&mut pool);
    assert_eq!(b.index(), idx);
    assert_eq!(b.buffer_id(), bid);

    // Releasing one of the two handles keeps the record in use.
    a.release(&mut pool);
    assert!(pool.has_chunk_record(bid, idx));
    assert_eq!(pool.chunk_record_count(bid), 1);

    // Releasing the last handle frees the range entirely.
    b.release(&mut pool);
    assert!(!pool.has_chunk_record(bid, idx));
    assert_eq!(pool.chunk_record_count(bid), 0);

    // The freed range is reusable: a whole-buffer request fits again.
    let c = pool.chunk(4, true).unwrap();
    assert_eq!(c.index(), 0);
    assert_eq!(pool.capacity(), 4);
    assert_eq!(pool.num_buffers(), 1);
}

#[test]
fn uniform_alignment_offsets_every_chunk() {
    // Elements of 4 bytes under a 16-byte minimum uniform-buffer offset
    // alignment.
    let limits = DeviceLimits {
        min_uniform_buffer_offset_alignment: 16,
        min_storage_buffer_offset_alignment: 1,
    };
    let mut pool = XallocCpuBufferPool::uniform_buffer(4, limits);
    pool.reserve(32, true).unwrap();

    let a = pool.chunk(3, true).unwrap();
    assert_eq!(a.index(), 0);
    assert_eq!(a.align_offset(), 0);
    assert_eq!(a.byte_offset(&pool), 0);
    assert_eq!(a.size(&pool), 12);

    // The cursor sits at element 3 = byte 12; 4 bytes of padding (one
    // element) bring the data to byte 16.
    let b = pool.chunk(3, true).unwrap();
    assert_eq!(b.index(), 3);
    assert_eq!(b.align_offset(), 4);
    assert_eq!(b.byte_offset(&pool), 16);
    assert_eq!(b.byte_offset(&pool) % 16, 0);

    // The cursor advanced by the occupied length 4, to element 7 = byte 28;
    // 4 bytes of padding bring the data to byte 32.
    let c = pool.chunk(2, true).unwrap();
    assert_eq!(c.index(), 7);
    assert_eq!(c.align_offset(), 4);
    assert_eq!(c.byte_offset(&pool), 32);
    assert_eq!(c.byte_offset(&pool) % 16, 0);
}

#[test]
fn storage_alignment_is_honoured_too() {
    let limits = DeviceLimits {
        min_uniform_buffer_offset_alignment: 1,
        min_storage_buffer_offset_alignment: 8,
    };
    let mut usage = xalloc_pool::BufferUsage::none();
    usage.storage_buffer = true;
    let mut pool = XallocCpuBufferPool::new(usage, 2, limits);
    pool.reserve(16, true).unwrap();
    let a = pool.chunk(1, true).unwrap();
    let b = pool.chunk(1, true).unwrap();
    assert_eq!(a.byte_offset(&pool) % 8, 0);
    assert_eq!(b.byte_offset(&pool) % 8, 0);
    // Element 1 is byte 2; 6 bytes of padding (3 elements) reach byte 8.
    assert_eq!(b.index(), 1);
    assert_eq!(b.align_offset(), 6);
    assert_eq!(b.byte_offset(&pool), 8);
}

#[test]
fn conflict_keys_identify_the_sub_range() {
    let mut pool = XallocCpuBufferPool::upload(1, loose_limits());
    pool.reserve(8, true).unwrap();
    let a = pool.chunk(2, true).unwrap();
    let b = pool.chunk(2, true).unwrap();
    let ka = a.conflict_key(&pool);
    let kb = b.conflict_key(&pool);
    assert_eq!(ka.1, 0);
    assert_eq!(kb.1, 2);
    assert_eq!(ka.0, kb.0);
    assert!(!a.conflicts_buffer(&b, &pool));
    assert!(a.conflicts_buffer(&a, &pool));
    assert!(!a.conflicts_image());
}

#[test]
fn zero_len_conflict_key_uses_the_sentinel() {
    let mut pool = XallocCpuBufferPool::upload(1, loose_limits());
    pool.reserve(4, true).unwrap();
    let real = pool.chunk(2, true).unwrap();
    let z = pool.chunk(0, true).unwrap();
    let kz = z.conflict_key(&pool);
    assert_eq!(kz.1, usize::MAX);
    // The empty chunk must not collide with a real chunk starting at 0.
    assert!(!z.conflicts_buffer(&real, &pool));
}

#[test]
fn subbuffer_handles_forward_to_their_chunk() {
    let mut pool = XallocCpuBufferPool::upload(4, loose_limits());
    let s = pool.next(true).unwrap();
    assert_eq!(s.index(), 0);
    assert_eq!(s.size(&pool), 4);
    assert_eq!(s.byte_offset(&pool), 0);
    assert!(!s.conflicts_image());
    assert_eq!(s.try_gpu_lock(&mut pool), Ok(()));
    s.increase_gpu_lock(&mut pool);
    s.unlock(&mut pool);
    s.unlock(&mut pool);

    let t = s.clone_subbuffer(&mut pool);
    let bid = s.buffer_id();
    s.release(&mut pool);
    assert!(pool.has_chunk_record(bid, 0));
    let kt = t.conflict_key(&pool);
    assert_eq!(kt.1, 0);
    t.release(&mut pool);
    assert!(!pool.has_chunk_record(bid, 0));
}
