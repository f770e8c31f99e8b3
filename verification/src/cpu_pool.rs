//! The streaming sub-allocation pool.
//!
//! The pool owns every backing buffer it has created; the current one serves
//! new chunks, older ones stay in place so that outstanding chunk handles
//! remain valid after the pool has moved on to a larger buffer.  A chunk
//! handle is a ticket into that state: the operations that mutate a chunk's
//! reference counts take the pool as an explicit argument.

use vstd::prelude::*;
use crate::alignment::lemma_align_offset_correct;
use crate::alignment::lemma_pad_covers;
use crate::alignment::spec_align_offset;
use crate::alignment::spec_pad_elems;

verus! {

/// The ways a buffer may be used.  The two flags that carry a device minimum
/// offset alignment are `uniform_buffer` and `storage_buffer`; the others only
/// describe the intended use to the device.
#[derive(Clone, Copy, Debug, PartialEq, Eq, Structural)]
pub struct BufferUsage {
    pub transfer_source: bool,
    pub transfer_destination: bool,
    pub uniform_buffer: bool,
    pub storage_buffer: bool,
    pub vertex_buffer: bool,
    pub indirect_buffer: bool,
}

impl BufferUsage {
    /// No usage at all.
    pub fn none() -> (r: BufferUsage)
        ensures
            r == (BufferUsage {
                transfer_source: false,
                transfer_destination: false,
                uniform_buffer: false,
                storage_buffer: false,
                vertex_buffer: false,
                indirect_buffer: false,
            }),
    {
        BufferUsage {
            transfer_source: false,
            transfer_destination: false,
            uniform_buffer: false,
            storage_buffer: false,
            vertex_buffer: false,
            indirect_buffer: false,
        }
    }

    /// Usable only as a transfer source.
    pub fn transfer_source() -> (r: BufferUsage)
        ensures
            r == (BufferUsage { transfer_source: true, ..BufferUsage::spec_none() }),
    {
        let mut u = BufferUsage::none();
        u.transfer_source = true;
        u
    }

    /// Usable only as a transfer destination.
    pub fn transfer_destination() -> (r: BufferUsage)
        ensures
            r == (BufferUsage { transfer_destination: true, ..BufferUsage::spec_none() }),
    {
        let mut u = BufferUsage::none();
        u.transfer_destination = true;
        u
    }

    /// Usable only as a uniform buffer.
    pub fn uniform_buffer() -> (r: BufferUsage)
        ensures
            r == (BufferUsage { uniform_buffer: true, ..BufferUsage::spec_none() }),
    {
        let mut u = BufferUsage::none();
        u.uniform_buffer = true;
        u
    }

    /// Usable only as a vertex buffer.
    pub fn vertex_buffer() -> (r: BufferUsage)
        ensures
            r == (BufferUsage { vertex_buffer: true, ..BufferUsage::spec_none() }),
    {
        let mut u = BufferUsage::none();
        u.vertex_buffer = true;
        u
    }

    /// Usable only as an indirect buffer.
    pub fn indirect_buffer() -> (r: BufferUsage)
        ensures
            r == (BufferUsage { indirect_buffer: true, ..BufferUsage::spec_none() }),
    {
        let mut u = BufferUsage::none();
        u.indirect_buffer = true;
        u
    }

    /// The all-false usage, for stating the constructors' results.
    pub open spec fn spec_none() -> BufferUsage {
        BufferUsage {
            transfer_source: false,
            transfer_destination: false,
            uniform_buffer: false,
            storage_buffer: false,
            vertex_buffer: false,
            indirect_buffer: false,
        }
    }
}

/// The alignment limits the physical device reports: the minimum offset
/// alignment, in bytes, for uniform-buffer and storage-buffer bindings.
#[derive(Clone, Copy, Debug, PartialEq, Eq, Structural)]
pub struct DeviceLimits {
    pub min_uniform_buffer_offset_alignment: usize,
    pub min_storage_buffer_offset_alignment: usize,
}

/// Failure of the device-memory backing-allocation service.
#[derive(Clone, Copy, Debug, PartialEq, Eq, Structural)]
pub enum DeviceMemoryAllocError {
    /// The device could not provide the requested memory.
    OomError,
}

/// Failure to bracket a chunk for GPU access.
#[derive(Clone, Copy, Debug, PartialEq, Eq, Structural)]
pub enum AccessError {
    /// A GPU lock is already held on the chunk.
    AlreadyInUse,
}

/// One in-use range of a backing buffer: the first occupied element, the
/// occupied length (requested length plus alignment padding), and the two
/// reference counts.
#[derive(Clone, Copy, Debug, PartialEq, Eq, Structural)]
pub struct ActualBufferChunk {
    /// First element number within the backing buffer.
    pub index: usize,
    /// Number of occupied elements within the backing buffer.
    pub len: usize,
    /// Number of live chunk handles that point to this range.
    pub num_cpu_accesses: usize,
    /// Number of GPU locks currently held on this range.
    pub num_gpu_accesses: usize,
}

/// The mathematical state of one backing buffer.
pub ghost struct BufView {
    /// Element capacity of the buffer.
    pub capacity: nat,
    /// The ring cursor: the next untried allocation offset, in elements.
    pub next_index: nat,
    /// The in-use chunk records, in order of insertion.
    pub chunks: Seq<ActualBufferChunk>,
}

/// One backing buffer of the pool: a fixed element capacity, the ring
/// cursor, and the list of in-use chunk records.
pub struct ActualBuffer {
    chunks_in_use: Vec<ActualBufferChunk>,
    next_index: usize,
    capacity: usize,
}

impl View for ActualBuffer {
    type V = BufView;

    closed spec fn view(&self) -> BufView {
        BufView {
            capacity: self.capacity as nat,
            next_index: self.next_index as nat,
            chunks: self.chunks_in_use@,
        }
    }
}

/// A well-formed record: positive occupied length, a range that lies within
/// the buffer, and at least one CPU reference.
pub open spec fn rec_wf(c: ActualBufferChunk, capacity: nat) -> bool {
    &&& 1 <= c.len
    &&& c.index + c.len <= capacity
    &&& 1 <= c.num_cpu_accesses
}

/// Two records occupy disjoint element ranges.
pub open spec fn recs_disjoint(a: ActualBufferChunk, b: ActualBufferChunk) -> bool {
    a.index + a.len <= b.index || b.index + b.len <= a.index
}

/// The record's range intersects `[start, start + len)`.
pub open spec fn rec_overlaps(c: ActualBufferChunk, start: int, len: int) -> bool {
    c.index < start + len && start < c.index + c.len
}

/// No in-use record intersects `[start, start + len)`.
pub open spec fn range_free(b: BufView, start: int, len: int) -> bool {
    forall|i: int| 0 <= i < b.chunks.len() ==> !rec_overlaps(#[trigger] b.chunks[i], start, len)
}

/// Well-formedness of a backing buffer for a pool whose elements are
/// `element_size` bytes wide: the buffer's byte size fits the address space,
/// the ring cursor stays within the capacity, every record is well formed,
/// and no two records overlap.
pub open spec fn buf_wf(b: BufView, element_size: nat) -> bool {
    &&& b.capacity * element_size <= usize::MAX
    &&& b.next_index <= b.capacity
    &&& forall|i: int| 0 <= i < b.chunks.len() ==> rec_wf(#[trigger] b.chunks[i], b.capacity)
    &&& forall|i: int, j: int|
        0 <= i < b.chunks.len() && 0 <= j < b.chunks.len() && i != j ==> recs_disjoint(
            #[trigger] b.chunks[i],
            #[trigger] b.chunks[j],
        )
}

/// Byte offset that aligns the ring cursor of `b` for elements of `s` bytes
/// and an alignment of `a` bytes.
pub open spec fn spec_tentative_offset(b: BufView, s: nat, a: nat) -> int {
    spec_align_offset(b.next_index as int, s as int, a as int)
}

/// Occupied length of a tentative placement at the ring cursor: the requested
/// length plus the elements consumed by alignment padding.
pub open spec fn spec_tentative_len(b: BufView, rlen: nat, s: nat, a: nat) -> int {
    rlen + spec_pad_elems(spec_tentative_offset(b, s, a), s as int)
}

/// The tentative placement at the ring cursor fits within the capacity and
/// overlaps no in-use record.
pub open spec fn tentative_fits(b: BufView, rlen: nat, s: nat, a: nat) -> bool {
    &&& b.next_index + spec_tentative_len(b, rlen, s, a) <= b.capacity
    &&& range_free(b, b.next_index as int, spec_tentative_len(b, rlen, s, a))
}

/// The fallback placement at offset 0 fits within the capacity and overlaps
/// no in-use record.
pub open spec fn fallback_fits(b: BufView, rlen: nat) -> bool {
    &&& rlen <= b.capacity
    &&& range_free(b, 0, rlen as int)
}

/// What the two-placement policy decides on buffer `b` for a request of
/// `rlen` elements of `s` bytes under an alignment of `a` bytes: the
/// placement `(index, occupied length, alignment offset)` of the tentative
/// attempt at the ring cursor, else of the fallback at offset 0, else `None`.
pub open spec fn alloc_outcome(b: BufView, rlen: nat, s: nat, a: nat) -> Option<(int, int, int)> {
    if tentative_fits(b, rlen, s, a) {
        Some((b.next_index as int, spec_tentative_len(b, rlen, s, a), spec_tentative_offset(b, s, a)))
    } else if fallback_fits(b, rlen) {
        Some((0int, rlen as int, 0int))
    } else {
        None
    }
}

impl ActualBuffer {
    /// A fresh backing buffer: given capacity, cursor at 0, no records.
    pub(crate) fn new(capacity: usize) -> (r: ActualBuffer)
        ensures
            r@ == (BufView { capacity: capacity as nat, next_index: 0, chunks: Seq::empty() }),
    {
        let r = ActualBuffer { chunks_in_use: Vec::new(), next_index: 0, capacity };
        proof {
            assert(r@.chunks =~= Seq::<ActualBufferChunk>::empty());
        }
        r
    }

    /// True when no in-use record intersects `[start, start + len)`, by the
    /// linear scan of the record list.
    #[verifier::loop_isolation(false)]
    fn range_is_free(&self, start: usize, len: usize) -> (r: bool)
        requires
            forall|i: int|
                0 <= i < self@.chunks.len() ==> rec_wf(#[trigger] self@.chunks[i], self@.capacity),
            1 <= len,
            start + len <= self@.capacity,
        ensures
            r == range_free(self@, start as int, len as int),
    {
        let end = start + len;
        let mut k: usize = 0;
        while k < self.chunks_in_use.len()
            invariant
                k <= self.chunks_in_use.len(),
                forall|i: int|
                    0 <= i < k ==> !rec_overlaps(
                        #[trigger] self@.chunks[i],
                        start as int,
                        len as int,
                    ),
            decreases self.chunks_in_use.len() - k,
        {
            let c = self.chunks_in_use[k];
            assert(rec_wf(self@.chunks[k as int], self@.capacity));
            if (c.index >= start && c.index < end) || (c.index <= start && c.index + c.len > start) {
                assert(rec_overlaps(self@.chunks[k as int], start as int, len as int));
                return false;
            }
            assert(!rec_overlaps(self@.chunks[k as int], start as int, len as int));
            k = k + 1;
        }
        true
    }

    /// The allocation fast path: try the tentative placement at the ring
    /// cursor, then the fallback at offset 0.  On success the record is
    /// pushed, the cursor advanced, and the placement returned; on failure
    /// the buffer is untouched.
    pub(crate) fn try_alloc(&mut self, requested_len: usize, element_size: usize, align_bytes: usize)
        -> (r: Option<(usize, usize, usize)>)
        requires
            buf_wf(old(self)@, element_size as nat),
            1 <= requested_len,
            1 <= element_size,
            1 <= align_bytes,
        ensures
            buf_wf(final(self)@, element_size as nat),
            final(self)@.capacity == old(self)@.capacity,
            match alloc_outcome(
                old(self)@,
                requested_len as nat,
                element_size as nat,
                align_bytes as nat,
            ) {
                Some(t) => {
                    &&& r == Some(((t.0 as usize, t.1 as usize, t.2 as usize)))
                    &&& final(self)@.chunks == old(self)@.chunks.push(
                        (ActualBufferChunk {
                            index: t.0 as usize,
                            len: t.1 as usize,
                            num_cpu_accesses: 1,
                            num_gpu_accesses: 0,
                        }),
                    )
                    &&& final(self)@.next_index == t.0 + t.1
                    &&& requested_len <= t.1
                    &&& t.0 + t.1 <= old(self)@.capacity
                    &&& (t.0 * element_size + t.2) % (align_bytes as int) == 0
                    &&& t.2 <= (t.1 - requested_len) * element_size
                },
                None => r == None::<(usize, usize, usize)> && final(self)@ == old(self)@,
            },
    {
        let ghost pre = self@;
        let ghost s = element_size as nat;
        let ghost a = align_bytes as nat;
        let ghost rl = requested_len as nat;
        let idx = self.next_index;
        proof {
            vstd::arithmetic::mul::lemma_mul_inequality(
                idx as int,
                self.capacity as int,
                element_size as int,
            );
            lemma_align_offset_correct(idx as int, element_size as int, align_bytes as int);
        }
        let idx_bytes = idx * element_size;
        let rem = idx_bytes % align_bytes;
        let align_offset = (align_bytes - rem) % align_bytes;
        assert(align_offset == spec_tentative_offset(pre, s, a));
        let additional_len: usize = if align_offset == 0 {
            0
        } else {
            proof {
                vstd::arithmetic::div_mod::lemma_div_nonincreasing(
                    align_offset - 1,
                    element_size as int,
                );
                vstd::arithmetic::div_mod::lemma_div_pos_is_pos(
                    align_offset - 1,
                    element_size as int,
                );
            }
            1 + (align_offset - 1) / element_size
        };
        assert(additional_len == spec_pad_elems(align_offset as int, element_size as int));
        proof {
            lemma_pad_covers(align_offset as int, element_size as int);
        }

        // Tentative placement at the ring cursor.
        match requested_len.checked_add(additional_len) {
            Some(tentative_len) => {
                assert(tentative_len == spec_tentative_len(pre, rl, s, a));
                if tentative_len <= self.capacity && idx <= self.capacity - tentative_len {
                    if self.range_is_free(idx, tentative_len) {
                        assert(tentative_fits(pre, rl, s, a));
                        let rec = ActualBufferChunk {
                            index: idx,
                            len: tentative_len,
                            num_cpu_accesses: 1,
                            num_gpu_accesses: 0,
                        };
                        self.chunks_in_use.push(rec);
                        self.next_index = idx + tentative_len;
                        proof {
                            lemma_alloc_keeps_wf(pre, self@, rec, s);
                        }
                        return Some((idx, tentative_len, align_offset));
                    }
                    assert(!tentative_fits(pre, rl, s, a));
                } else {
                    assert(!tentative_fits(pre, rl, s, a));
                }
            },
            None => {
                assert(!tentative_fits(pre, rl, s, a));
            },
        }

        // Fallback placement at offset 0, with no padding.
        if requested_len <= self.capacity {
            if self.range_is_free(0, requested_len) {
                assert(fallback_fits(pre, rl));
                let rec = ActualBufferChunk {
                    index: 0,
                    len: requested_len,
                    num_cpu_accesses: 1,
                    num_gpu_accesses: 0,
                };
                self.chunks_in_use.push(rec);
                self.next_index = requested_len;
                proof {
                    lemma_alloc_keeps_wf(pre, self@, rec, s);
                    vstd::arithmetic::div_mod::lemma_small_mod(0nat, align_bytes as nat);
                }
                return Some((0, requested_len, 0));
            }
        }
        assert(!fallback_fits(pre, rl));
        None
    }
}

/// The mathematical state of a pool: its configuration, every backing buffer
/// it has created (older ones stay in place so outstanding chunk handles keep
/// their meaning), and which buffer currently serves allocations.
pub ghost struct PoolView {
    /// The usage flags the pool was built with.
    pub usage: BufferUsage,
    /// Width of one element, in bytes.
    pub element_size: nat,
    /// Minimum byte alignment of every served data offset.
    pub align_bytes: nat,
    /// Every backing buffer created so far, in order of creation.
    pub buffers: Seq<BufView>,
    /// Position of the buffer that currently serves allocations, if any.
    pub current: Option<int>,
}

/// The view of a whole buffer list.
pub open spec fn bufs_view(v: Seq<ActualBuffer>) -> Seq<BufView> {
    v.map_values(|x: ActualBuffer| x@)
}

/// A streaming sub-allocation pool for elements of a fixed byte width.
///
/// The pool serves alignment-correct chunks from its current backing buffer
/// in ring order and replaces the buffer with a larger one when it is
/// exhausted.  The device-memory service that would provide the physical
/// backing is an external collaborator: its verdict enters `reserve` and
/// `chunk` as the `device_alloc_ok` argument.
pub struct XallocCpuBufferPool {
    usage: BufferUsage,
    element_size: usize,
    align_bytes: usize,
    buffers: Vec<ActualBuffer>,
    current_buffer: Option<usize>,
}

impl View for XallocCpuBufferPool {
    type V = PoolView;

    closed spec fn view(&self) -> PoolView {
        PoolView {
            usage: self.usage,
            element_size: self.element_size as nat,
            align_bytes: self.align_bytes as nat,
            buffers: bufs_view(self.buffers@),
            current: match self.current_buffer {
                Some(b) => Some(b as int),
                None => None,
            },
        }
    }
}

/// Position of the current buffer; meaningful only when one exists.
pub open spec fn cur_id(p: PoolView) -> int {
    match p.current {
        Some(b) => b,
        None => -1,
    }
}

/// Element capacity of the current backing buffer, or 0 when none has been
/// allocated yet.
pub open spec fn pool_capacity(p: PoolView) -> nat {
    match p.current {
        Some(b) => p.buffers[b].capacity,
        None => 0,
    }
}

/// The byte alignment demanded by a usage under the device's limits: the
/// maximum of the limits that the enabled usages mandate, or 1.
pub open spec fn spec_usage_align(usage: BufferUsage, limits: DeviceLimits) -> nat {
    let ua: nat = if usage.uniform_buffer {
        limits.min_uniform_buffer_offset_alignment as nat
    } else {
        1
    };
    let sa: nat = if usage.storage_buffer {
        limits.min_storage_buffer_offset_alignment as nat
    } else {
        1
    };
    if ua >= sa {
        ua
    } else {
        sa
    }
}

/// Well-formedness of a pool: a positive element width and alignment, every
/// backing buffer well formed, and a current buffer that exists.
pub open spec fn pool_wf(p: PoolView) -> bool {
    &&& 1 <= p.element_size
    &&& 1 <= p.align_bytes
    &&& forall|i: int| 0 <= i < p.buffers.len() ==> buf_wf(#[trigger] p.buffers[i], p.element_size)
    &&& match p.current {
        Some(b) => 0 <= b < p.buffers.len(),
        None => true,
    }
}

/// The pool's configuration never changes after construction, and backing
/// buffers are never taken away or resized: what a chunk handle points at
/// stays meaningful for the life of the pool.
pub open spec fn pool_preserves(pre: PoolView, post: PoolView) -> bool {
    &&& post.usage == pre.usage
    &&& post.element_size == pre.element_size
    &&& post.align_bytes == pre.align_bytes
    &&& pre.buffers.len() <= post.buffers.len()
    &&& forall|i: int|
        0 <= i < pre.buffers.len() ==> (#[trigger] post.buffers[i]).capacity
            == pre.buffers[i].capacity
}

/// The pool after a brand-new backing buffer of `cap` elements has been
/// installed as current.
pub open spec fn pool_with_new_buffer(p: PoolView, cap: nat) -> PoolView {
    PoolView {
        buffers: p.buffers.push(BufView { capacity: cap, next_index: 0, chunks: Seq::empty() }),
        current: Some(p.buffers.len() as int),
        ..p
    }
}

/// The pool with buffer `b` replaced by `nb`.
pub open spec fn pool_with_buffer(p: PoolView, b: int, nb: BufView) -> PoolView {
    PoolView { buffers: p.buffers.update(b, nb), ..p }
}

/// Updating one element of a buffer list updates its view pointwise.
proof fn lemma_bufs_view_update(pre: Seq<ActualBuffer>, post: Seq<ActualBuffer>, b: int, nb: ActualBuffer)
    requires
        0 <= b < pre.len(),
        post == pre.update(b, nb),
    ensures
        bufs_view(post) == bufs_view(pre).update(b, nb@),
{
    assert(bufs_view(post) =~= bufs_view(pre).update(b, nb@));
}

/// Appending to a buffer list appends to its view.
proof fn lemma_bufs_view_push(pre: Seq<ActualBuffer>, post: Seq<ActualBuffer>, nb: ActualBuffer)
    requires
        post == pre.push(nb),
    ensures
        bufs_view(post) == bufs_view(pre).push(nb@),
{
    assert(bufs_view(post) =~= bufs_view(pre).push(nb@));
}

impl XallocCpuBufferPool {
    /// Well-formedness of the pool's state.
    pub open spec fn wf(self) -> bool {
        pool_wf(self@)
    }

    /// Element capacity of the current backing buffer, 0 before first use.
    pub open spec fn spec_capacity(self) -> nat {
        pool_capacity(self@)
    }

    /// Builds a pool for elements of `element_size` bytes, used as `usage`
    /// says, under the alignment limits the device reports.  No backing
    /// buffer exists yet: the capacity starts at 0.
    pub fn new(usage: BufferUsage, element_size: usize, limits: DeviceLimits) -> (r:
        XallocCpuBufferPool)
        requires
            1 <= element_size,
            1 <= limits.min_uniform_buffer_offset_alignment,
            1 <= limits.min_storage_buffer_offset_alignment,
        ensures
            r.wf(),
            r@.usage == usage,
            r@.element_size == element_size as nat,
            r@.align_bytes == spec_usage_align(usage, limits),
            r@.buffers == Seq::<BufView>::empty(),
            r@.current is None,
            r.spec_capacity() == 0,
    {
        let ua = if usage.uniform_buffer {
            limits.min_uniform_buffer_offset_alignment
        } else {
            1
        };
        let sa = if usage.storage_buffer {
            limits.min_storage_buffer_offset_alignment
        } else {
            1
        };
        let align_bytes = if ua >= sa {
            ua
        } else {
            sa
        };
        let r = XallocCpuBufferPool {
            usage,
            element_size,
            align_bytes,
            buffers: Vec::new(),
            current_buffer: None,
        };
        proof {
            assert(r@.buffers =~= Seq::<BufView>::empty());
        }
        r
    }

    /// Builds a pool meant for simple uploads: usable only as a transfer
    /// source.
    pub fn upload(element_size: usize, limits: DeviceLimits) -> (r: XallocCpuBufferPool)
        requires
            1 <= element_size,
            1 <= limits.min_uniform_buffer_offset_alignment,
            1 <= limits.min_storage_buffer_offset_alignment,
        ensures
            r.wf(),
            r@.usage == (BufferUsage { transfer_source: true, ..BufferUsage::spec_none() }),
            r@.element_size == element_size as nat,
            r@.align_bytes == spec_usage_align(r@.usage, limits),
            r@.current is None,
            r.spec_capacity() == 0,
    {
        XallocCpuBufferPool::new(BufferUsage::transfer_source(), element_size, limits)
    }

    /// Builds a pool meant for simple downloads: usable only as a transfer
    /// destination.
    pub fn download(element_size: usize, limits: DeviceLimits) -> (r: XallocCpuBufferPool)
        requires
            1 <= element_size,
            1 <= limits.min_uniform_buffer_offset_alignment,
            1 <= limits.min_storage_buffer_offset_alignment,
        ensures
            r.wf(),
            r@.usage == (BufferUsage { transfer_destination: true, ..BufferUsage::spec_none() }),
            r@.element_size == element_size as nat,
            r@.align_bytes == spec_usage_align(r@.usage, limits),
            r@.current is None,
            r.spec_capacity() == 0,
    {
        XallocCpuBufferPool::new(BufferUsage::transfer_destination(), element_size, limits)
    }

    /// Builds a pool meant for usage as a uniform buffer.
    pub fn uniform_buffer(element_size: usize, limits: DeviceLimits) -> (r: XallocCpuBufferPool)
        requires
            1 <= element_size,
            1 <= limits.min_uniform_buffer_offset_alignment,
            1 <= limits.min_storage_buffer_offset_alignment,
        ensures
            r.wf(),
            r@.usage == (BufferUsage { uniform_buffer: true, ..BufferUsage::spec_none() }),
            r@.element_size == element_size as nat,
            r@.align_bytes == spec_usage_align(r@.usage, limits),
            r@.current is None,
            r.spec_capacity() == 0,
    {
        XallocCpuBufferPool::new(BufferUsage::uniform_buffer(), element_size, limits)
    }

    /// Builds a pool meant for usage as a vertex buffer.
    pub fn vertex_buffer(element_size: usize, limits: DeviceLimits) -> (r: XallocCpuBufferPool)
        requires
            1 <= element_size,
            1 <= limits.min_uniform_buffer_offset_alignment,
            1 <= limits.min_storage_buffer_offset_alignment,
        ensures
            r.wf(),
            r@.usage == (BufferUsage { vertex_buffer: true, ..BufferUsage::spec_none() }),
            r@.element_size == element_size as nat,
            r@.align_bytes == spec_usage_align(r@.usage, limits),
            r@.current is None,
            r.spec_capacity() == 0,
    {
        XallocCpuBufferPool::new(BufferUsage::vertex_buffer(), element_size, limits)
    }

    /// Builds a pool meant for usage as an indirect buffer.
    pub fn indirect_buffer(element_size: usize, limits: DeviceLimits) -> (r: XallocCpuBufferPool)
        requires
            1 <= element_size,
            1 <= limits.min_uniform_buffer_offset_alignment,
            1 <= limits.min_storage_buffer_offset_alignment,
        ensures
            r.wf(),
            r@.usage == (BufferUsage { indirect_buffer: true, ..BufferUsage::spec_none() }),
            r@.element_size == element_size as nat,
            r@.align_bytes == spec_usage_align(r@.usage, limits),
            r@.current is None,
            r.spec_capacity() == 0,
    {
        XallocCpuBufferPool::new(BufferUsage::indirect_buffer(), element_size, limits)
    }

    /// Returns the current capacity of the pool, in number of elements.
    pub fn capacity(&self) -> (r: usize)
        requires
            self.wf(),
        ensures
            r == self.spec_capacity(),
    {
        match self.current_buffer {
            None => 0,
            Some(b) => self.buffers[b].capacity,
        }
    }

    /// Creates a new backing buffer of exactly `capacity` elements and sets
    /// it as current, if the device grants the memory.  The previous buffer
    /// stays in place for the chunks already served from it.  On failure the
    /// pool is left exactly as it was.
    fn reset_buf(&mut self, capacity: usize, device_alloc_ok: bool) -> (r: Result<
        (),
        DeviceMemoryAllocError,
    >)
        requires
            old(self).wf(),
        ensures
            final(self).wf(),
            pool_preserves(old(self)@, final(self)@),
            r is Ok ==> {
                &&& device_alloc_ok
                &&& capacity * old(self)@.element_size <= usize::MAX
                &&& final(self)@ == pool_with_new_buffer(old(self)@, capacity as nat)
                &&& final(self).spec_capacity() == capacity
            },
            r is Err ==> {
                &&& r == Err::<(), DeviceMemoryAllocError>(DeviceMemoryAllocError::OomError)
                &&& !device_alloc_ok || capacity * old(self)@.element_size > usize::MAX
                &&& final(self)@ == old(self)@
            },
    {
        // The backing allocation is the device-memory collaborator's work:
        // first the byte size must fit the address space, then the device
        // must grant the memory.
        proof {
            vstd::arithmetic::mul::lemma_mul_is_commutative(
                capacity as int,
                self.element_size as int,
            );
        }
        match self.element_size.checked_mul(capacity) {
            None => Err(DeviceMemoryAllocError::OomError),
            Some(_size_bytes) => {
                if !device_alloc_ok {
                    Err(DeviceMemoryAllocError::OomError)
                } else {
                    let ghost pre = self@;
                    let nb = ActualBuffer::new(capacity);
                    self.buffers.push(nb);
                    self.current_buffer = Some(self.buffers.len() - 1);
                    proof {
                        lemma_bufs_view_push(old(self).buffers@, self.buffers@, nb);
                        vstd::arithmetic::mul::lemma_mul_is_commutative(
                            capacity as int,
                            pre.element_size as int,
                        );
                        assert(self@ == pool_with_new_buffer(pre, capacity as nat));
                        assert forall|i: int| 0 <= i < self@.buffers.len() implies buf_wf(
                            #[trigger] self@.buffers[i],
                            self@.element_size,
                        ) by {
                            if i < pre.buffers.len() {
                                assert(self@.buffers[i] == pre.buffers[i]);
                            } else {
                                assert(self@.buffers[i] == nb@);
                                vstd::arithmetic::mul::lemma_mul_is_commutative(
                                    capacity as int,
                                    pre.element_size as int,
                                );
                            }
                        }
                    }
                    Ok(())
                }
            },
        }
    }

    /// Makes sure that the capacity is at least `min_capacity` elements.  If
    /// the current buffer is already large enough this is a no-op; otherwise
    /// a brand-new backing buffer of exactly `min_capacity` elements replaces
    /// the current one, and every chunk handle already served keeps its
    /// meaning against the old buffer.  On failure the capacity is unchanged.
    pub fn reserve(&mut self, min_capacity: usize, device_alloc_ok: bool) -> (r: Result<
        (),
        DeviceMemoryAllocError,
    >)
        requires
            old(self).wf(),
        ensures
            final(self).wf(),
            pool_preserves(old(self)@, final(self)@),
            final(self).spec_capacity() >= old(self).spec_capacity(),
            r is Ok ==> final(self).spec_capacity() >= min_capacity,
            old(self)@.current is Some && old(self).spec_capacity() >= min_capacity ==> r == Ok::<
                (),
                DeviceMemoryAllocError,
            >(()) && final(self)@ == old(self)@,
            old(self)@.current is None || old(self).spec_capacity() < min_capacity ==> {
                &&& r is Ok ==> {
                    &&& device_alloc_ok
                    &&& min_capacity * old(self)@.element_size <= usize::MAX
                    &&& final(self)@ == pool_with_new_buffer(old(self)@, min_capacity as nat)
                    &&& final(self).spec_capacity() == min_capacity
                }
                &&& r is Err ==> {
                    &&& r == Err::<(), DeviceMemoryAllocError>(DeviceMemoryAllocError::OomError)
                    &&& !device_alloc_ok || min_capacity * old(self)@.element_size > usize::MAX
                    &&& final(self)@ == old(self)@
                }
            },
    {
        let enough = match self.current_buffer {
            Some(b) => self.buffers[b].capacity >= min_capacity,
            None => false,
        };
        if enough {
            return Ok(());
        }
        self.reset_buf(min_capacity, device_alloc_ok)
    }
}

/// The mathematical state of a chunk handle: which backing buffer it points
/// into, the first occupied element, the byte offset added for alignment,
/// and the length the caller asked for.
pub ghost struct ChunkView {
    /// Position of the backing buffer within the pool's buffer list.
    pub buffer_id: nat,
    /// First occupied element within the backing buffer.
    pub index: nat,
    /// Bytes added to `index * element_size` to reach the data.
    pub align_offset: nat,
    /// Number of elements the caller asked for; 0 means no record was added.
    pub requested_len: nat,
}

/// A sub-range allocated from the pool.  Dropping the caller's interest in it
/// goes through [`XallocCpuBufferPoolChunk::release`], which takes the pool so
/// that the shared record can be updated.
pub struct XallocCpuBufferPoolChunk {
    buffer_id: usize,
    index: usize,
    align_offset: usize,
    requested_len: usize,
}

impl View for XallocCpuBufferPoolChunk {
    type V = ChunkView;

    closed spec fn view(&self) -> ChunkView {
        ChunkView {
            buffer_id: self.buffer_id as nat,
            index: self.index as nat,
            align_offset: self.align_offset as nat,
            requested_len: self.requested_len as nat,
        }
    }
}

/// Some record in `s` starts at element `idx`.
pub open spec fn has_record(s: Seq<ActualBufferChunk>, idx: nat) -> bool {
    exists|i: int| 0 <= i < s.len() && (#[trigger] s[i]).index == idx
}

/// The handle points at a buffer of the pool and, unless it is the
/// zero-length special case, at an in-use record of that buffer.
pub open spec fn chunk_live(c: ChunkView, p: PoolView) -> bool {
    &&& c.buffer_id < p.buffers.len()
    &&& (c.requested_len == 0 || has_record(p.buffers[c.buffer_id as int].chunks, c.index))
}

/// Bounds that every served handle satisfies for the life of the pool: the
/// data offset lies within the buffer's bytes and is aligned as the pool's
/// usage demands, and the requested length lies within the capacity.
pub open spec fn chunk_bounds(c: ChunkView, p: PoolView) -> bool {
    &&& c.buffer_id < p.buffers.len()
    &&& c.index * p.element_size + c.align_offset <= p.buffers[c.buffer_id as int].capacity
        * p.element_size
    &&& c.requested_len <= p.buffers[c.buffer_id as int].capacity
    &&& (c.index * p.element_size + c.align_offset) % p.align_bytes == 0
}

/// A handle's bounds survive every pool operation: the configuration and the
/// capacities of existing buffers never change.
pub proof fn lemma_chunk_bounds_preserved(c: ChunkView, pre: PoolView, post: PoolView)
    requires
        chunk_bounds(c, pre),
        pool_preserves(pre, post),
    ensures
        chunk_bounds(c, post),
{
}

/// The buffer after the fast path accepted placement `t`: the record pushed
/// and the ring cursor moved to the placement's end.
pub open spec fn buf_after_alloc(b: BufView, t: (int, int, int)) -> BufView {
    BufView {
        capacity: b.capacity,
        next_index: (t.0 + t.1) as nat,
        chunks: b.chunks.push(
            ActualBufferChunk {
                index: t.0 as usize,
                len: t.1 as usize,
                num_cpu_accesses: 1,
                num_gpu_accesses: 0,
            },
        ),
    }
}

/// The fast path succeeds on pool `p` for a request of `rlen` elements: a
/// current buffer exists and, unless the request is empty, the two-placement
/// policy finds room in it.
pub open spec fn can_alloc_fast(p: PoolView, rlen: nat) -> bool {
    &&& p.current is Some
    &&& (rlen == 0 || alloc_outcome(
        p.buffers[cur_id(p)],
        rlen,
        p.element_size,
        p.align_bytes,
    ) is Some)
}

/// How pool `post` and handle `c` come out of a successful fast-path
/// allocation of `rlen` elements on pool `pre`: an empty request touches
/// nothing and yields the zero-length handle on the current buffer; any other
/// request lands where the two-placement policy says, and only the current
/// buffer's record list and ring cursor change.
pub open spec fn fast_alloc_post(pre: PoolView, post: PoolView, c: ChunkView, rlen: nat) -> bool {
    &&& pre.current is Some
    &&& c.buffer_id == cur_id(pre)
    &&& c.requested_len == rlen
    &&& if rlen == 0 {
        &&& post == pre
        &&& c.index == 0
        &&& c.align_offset == 0
    } else {
        match alloc_outcome(pre.buffers[cur_id(pre)], rlen, pre.element_size, pre.align_bytes) {
            Some(t) => {
                &&& c.index == t.0
                &&& c.align_offset == t.2
                &&& post == pool_with_buffer(
                    pre,
                    cur_id(pre),
                    buf_after_alloc(pre.buffers[cur_id(pre)], t),
                )
            },
            None => false,
        }
    }
}

/// The capacity the pool grows to when the fast path finds no room for a
/// request of `rlen` elements: twice the current capacity, or twice the
/// request when there is no buffer yet or the request is at least as large.
pub open spec fn grow_capacity(p: PoolView, rlen: nat) -> int {
    match p.current {
        Some(b) => if rlen < p.buffers[b].capacity {
            2 * (p.buffers[b].capacity as int)
        } else {
            2 * (rlen as int)
        },
        None => 2 * (rlen as int),
    }
}

/// A placement within the capacity keeps its byte offset within the buffer's
/// bytes.
proof fn lemma_placement_bytes(i: int, l: int, ao: int, rlen: int, cap: int, s: int)
    requires
        0 <= i,
        0 <= rlen <= l,
        i + l <= cap,
        0 <= s,
        0 <= ao,
        ao <= (l - rlen) * s,
    ensures
        i * s + ao <= cap * s,
{
    vstd::arithmetic::mul::lemma_mul_is_distributive_add_other_way(s, i, l - rlen);
    vstd::arithmetic::mul::lemma_mul_inequality(i + l - rlen, cap, s);
}

/// A fresh current buffer large enough for the request lets the fast path
/// succeed: at ring cursor 0 no padding is needed and nothing is in use.
proof fn lemma_fresh_buffer_can_alloc(p: PoolView, rlen: nat)
    requires
        pool_wf(p),
        p.current is Some,
        p.buffers[cur_id(p)].next_index == 0,
        p.buffers[cur_id(p)].chunks.len() == 0,
        rlen <= p.buffers[cur_id(p)].capacity,
    ensures
        can_alloc_fast(p, rlen),
        rlen > 0 ==> tentative_fits(p.buffers[cur_id(p)], rlen, p.element_size, p.align_bytes),
{
    if rlen > 0 {
        let b = p.buffers[cur_id(p)];
        let s = p.element_size as int;
        let a = p.align_bytes as int;
        vstd::arithmetic::div_mod::lemma_small_mod(0nat, p.align_bytes);
        vstd::arithmetic::div_mod::lemma_mod_self_0(a);
        assert(spec_tentative_offset(b, p.element_size, p.align_bytes) == 0);
        assert(spec_tentative_len(b, rlen, p.element_size, p.align_bytes) == rlen);
    }
}

impl XallocCpuBufferPool {
    /// The fast path: serve the request from the current backing buffer, or
    /// report that there is no room.  An empty request yields the zero-length
    /// handle and deliberately records nothing: a zero-length record would
    /// break the overlap bookkeeping and could never be released.
    fn try_next_impl(&mut self, requested_len: usize) -> (r: Option<XallocCpuBufferPoolChunk>)
        requires
            old(self).wf(),
        ensures
            final(self).wf(),
            pool_preserves(old(self)@, final(self)@),
            final(self)@.buffers.len() == old(self)@.buffers.len(),
            final(self)@.current == old(self)@.current,
            final(self).spec_capacity() == old(self).spec_capacity(),
            r is Some ==> can_alloc_fast(old(self)@, requested_len as nat),
            r is None ==> !can_alloc_fast(old(self)@, requested_len as nat) && final(self)@ == old(
                self,
            )@,
            r matches Some(c) ==> {
                &&& fast_alloc_post(old(self)@, final(self)@, c@, requested_len as nat)
                &&& chunk_live(c@, final(self)@)
                &&& chunk_bounds(c@, final(self)@)
            },
    {
        let b = match self.current_buffer {
            Some(b) => b,
            None => {
                return None;
            },
        };
        let ghost pre = self@;
        if requested_len == 0 {
            let c = XallocCpuBufferPoolChunk {
                buffer_id: b,
                index: 0,
                align_offset: 0,
                requested_len: 0,
            };
            proof {
                vstd::arithmetic::div_mod::lemma_small_mod(0nat, pre.align_bytes);
                vstd::arithmetic::mul::lemma_mul_nonnegative(
                    pre.buffers[b as int].capacity as int,
                    pre.element_size as int,
                );
            }
            return Some(c);
        }
        let es = self.element_size;
        let ab = self.align_bytes;
        let buf = &mut self.buffers[b];
        let res = buf.try_alloc(requested_len, es, ab);
        proof {
            lemma_bufs_view_update(
                old(self).buffers@,
                self.buffers@,
                b as int,
                self.buffers@[b as int],
            );
            assert forall|i: int| 0 <= i < self@.buffers.len() implies buf_wf(
                #[trigger] self@.buffers[i],
                self@.element_size,
            ) by {
                if i != b {
                    assert(self@.buffers[i] == pre.buffers[i]);
                }
            }
        }
        match res {
            Some((idx, olen, aoff)) => {
                let c = XallocCpuBufferPoolChunk {
                    buffer_id: b,
                    index: idx,
                    align_offset: aoff,
                    requested_len,
                };
                proof {
                    let t = alloc_outcome(
                        pre.buffers[b as int],
                        requested_len as nat,
                        pre.element_size,
                        pre.align_bytes,
                    )->Some_0;
                    assert(self@.buffers[b as int] == buf_after_alloc(pre.buffers[b as int], t));
                    assert(self@ == pool_with_buffer(
                        pre,
                        b as int,
                        buf_after_alloc(pre.buffers[b as int], t),
                    ));
                    let nc = self@.buffers[b as int].chunks;
                    assert(nc[nc.len() - 1].index == c@.index);
                    assert(has_record(nc, c@.index));
                    lemma_placement_bytes(
                        t.0,
                        t.1,
                        t.2,
                        requested_len as int,
                        pre.buffers[b as int].capacity as int,
                        pre.element_size as int,
                    );
                }
                Some(c)
            },
            None => {
                proof {
                    assert(self@.buffers =~= pre.buffers);
                }
                None
            },
        }
    }

    /// Grants access to a new chunk of `requested_len` elements and reports
    /// where the caller's data belongs.
    ///
    /// The fast path serves from the current backing buffer.  If there is no
    /// room, a brand-new buffer of twice the current capacity (or twice the
    /// request, whichever policy [`grow_capacity`] states) replaces the
    /// current one — at most once per call — and the retry on the fresh
    /// buffer is proven to succeed.  Chunks already served keep their meaning
    /// against the old buffer.  The call fails only when the fast path found
    /// no room and the device-memory collaborator refused the new backing
    /// buffer (`device_alloc_ok` is its verdict), or the grown size no longer
    /// fits the address space; the pool is then left exactly as it was.
    pub fn chunk(&mut self, requested_len: usize, device_alloc_ok: bool) -> (r: Result<
        XallocCpuBufferPoolChunk,
        DeviceMemoryAllocError,
    >)
        requires
            old(self).wf(),
        ensures
            final(self).wf(),
            pool_preserves(old(self)@, final(self)@),
            final(self).spec_capacity() >= old(self).spec_capacity(),
            r matches Ok(c) ==> {
                &&& c@.requested_len == requested_len
                &&& chunk_live(c@, final(self)@)
                &&& chunk_bounds(c@, final(self)@)
            },
            can_alloc_fast(old(self)@, requested_len as nat) ==> {
                &&& r is Ok
                &&& final(self)@.buffers.len() == old(self)@.buffers.len()
                &&& final(self)@.current == old(self)@.current
                &&& (r matches Ok(c) ==> fast_alloc_post(
                    old(self)@,
                    final(self)@,
                    c@,
                    requested_len as nat,
                ))
            },
            !can_alloc_fast(old(self)@, requested_len as nat) ==> {
                &&& r is Ok ==> {
                    &&& device_alloc_ok
                    &&& final(self)@.buffers.len() == old(self)@.buffers.len() + 1
                    &&& final(self).spec_capacity() == grow_capacity(
                        old(self)@,
                        requested_len as nat,
                    )
                    &&& (r matches Ok(c) ==> fast_alloc_post(
                        pool_with_new_buffer(
                            old(self)@,
                            grow_capacity(old(self)@, requested_len as nat) as nat,
                        ),
                        final(self)@,
                        c@,
                        requested_len as nat,
                    ))
                }
                &&& r is Err ==> {
                    &&& r == Err::<XallocCpuBufferPoolChunk, DeviceMemoryAllocError>(
                        DeviceMemoryAllocError::OomError,
                    )
                    &&& final(self)@ == old(self)@
                    &&& {
                        ||| !device_alloc_ok
                        ||| grow_capacity(old(self)@, requested_len as nat) > usize::MAX
                        ||| grow_capacity(old(self)@, requested_len as nat) * old(
                            self,
                        )@.element_size > usize::MAX
                    }
                }
            },
    {
        let ghost pre = self@;
        match self.try_next_impl(requested_len) {
            Some(c) => {
                return Ok(c);
            },
            None => {},
        }
        let next_capacity_opt = match self.current_buffer {
            Some(b) => {
                let cap = self.buffers[b].capacity;
                if requested_len < cap {
                    cap.checked_mul(2)
                } else {
                    requested_len.checked_mul(2)
                }
            },
            None => requested_len.checked_mul(2),
        };
        let next_capacity = match next_capacity_opt {
            Some(v) => v,
            None => {
                return Err(DeviceMemoryAllocError::OomError);
            },
        };
        assert(next_capacity == grow_capacity(pre, requested_len as nat));
        match self.reset_buf(next_capacity, device_alloc_ok) {
            Ok(_) => {},
            Err(e) => {
                return Err(e);
            },
        }
        let ghost mid = self@;
        proof {
            lemma_fresh_buffer_can_alloc(mid, requested_len as nat);
        }
        match self.try_next_impl(requested_len) {
            Some(c) => Ok(c),
            None => {
                // The fresh buffer was sized for the request, so the retry
                // cannot fail.
                proof {
                    assert(false);
                }
                vstd::pervasive::unreached()
            },
        }
    }

    /// Same as [`Self::chunk`], but never grows the backing buffer: when the
    /// fast path finds no room the result is absent and the pool untouched.
    pub fn try_chunk(&mut self, requested_len: usize) -> (r: Option<XallocCpuBufferPoolChunk>)
        requires
            old(self).wf(),
        ensures
            final(self).wf(),
            pool_preserves(old(self)@, final(self)@),
            final(self)@.buffers.len() == old(self)@.buffers.len(),
            final(self)@.current == old(self)@.current,
            final(self).spec_capacity() == old(self).spec_capacity(),
            r is Some ==> can_alloc_fast(old(self)@, requested_len as nat),
            r is None ==> !can_alloc_fast(old(self)@, requested_len as nat) && final(self)@ == old(
                self,
            )@,
            r matches Some(c) ==> {
                &&& fast_alloc_post(old(self)@, final(self)@, c@, requested_len as nat)
                &&& chunk_live(c@, final(self)@)
                &&& chunk_bounds(c@, final(self)@)
            },
    {
        self.try_next_impl(requested_len)
    }

    /// Grants access to a new single-element subbuffer, growing the backing
    /// buffer if it must, exactly as [`Self::chunk`] does for one element.
    pub fn next(&mut self, device_alloc_ok: bool) -> (r: Result<
        XallocCpuBufferPoolSubbuffer,
        DeviceMemoryAllocError,
    >)
        requires
            old(self).wf(),
        ensures
            final(self).wf(),
            pool_preserves(old(self)@, final(self)@),
            final(self).spec_capacity() >= old(self).spec_capacity(),
            r matches Ok(c) ==> {
                &&& c@.requested_len == 1
                &&& chunk_live(c@, final(self)@)
                &&& chunk_bounds(c@, final(self)@)
            },
            can_alloc_fast(old(self)@, 1) ==> {
                &&& r is Ok
                &&& (r matches Ok(c) ==> fast_alloc_post(old(self)@, final(self)@, c@, 1))
            },
            !can_alloc_fast(old(self)@, 1) ==> {
                &&& r is Ok ==> {
                    &&& device_alloc_ok
                    &&& final(self)@.buffers.len() == old(self)@.buffers.len() + 1
                    &&& final(self).spec_capacity() == grow_capacity(old(self)@, 1)
                    &&& (r matches Ok(c) ==> fast_alloc_post(
                        pool_with_new_buffer(old(self)@, grow_capacity(old(self)@, 1) as nat),
                        final(self)@,
                        c@,
                        1,
                    ))
                }
                &&& r is Err ==> {
                    &&& r == Err::<XallocCpuBufferPoolSubbuffer, DeviceMemoryAllocError>(
                        DeviceMemoryAllocError::OomError,
                    )
                    &&& final(self)@ == old(self)@
                    &&& {
                        ||| !device_alloc_ok
                        ||| grow_capacity(old(self)@, 1) > usize::MAX
                        ||| grow_capacity(old(self)@, 1) * old(self)@.element_size > usize::MAX
                    }
                }
            },
    {
        match self.chunk(1, device_alloc_ok) {
            Ok(c) => Ok(XallocCpuBufferPoolSubbuffer { chunk: c }),
            Err(e) => Err(e),
        }
    }

    /// Grants access to a new single-element subbuffer without ever growing
    /// the backing buffer; absent when no space is currently free.  The pool
    /// is always empty the first time it is used, so the first call cannot
    /// succeed.
    pub fn try_next(&mut self) -> (r: Option<XallocCpuBufferPoolSubbuffer>)
        requires
            old(self).wf(),
        ensures
            final(self).wf(),
            pool_preserves(old(self)@, final(self)@),
            final(self).spec_capacity() == old(self).spec_capacity(),
            r is Some ==> can_alloc_fast(old(self)@, 1),
            r is None ==> !can_alloc_fast(old(self)@, 1) && final(self)@ == old(self)@,
            r matches Some(c) ==> {
                &&& fast_alloc_post(old(self)@, final(self)@, c@, 1)
                &&& chunk_live(c@, final(self)@)
                &&& chunk_bounds(c@, final(self)@)
            },
    {
        match self.try_next_impl(1) {
            Some(c) => Some(XallocCpuBufferPoolSubbuffer { chunk: c }),
            None => None,
        }
    }
}

/// Position of the record that starts at element `idx`; meaningful only when
/// `has_record` holds.  Well-formedness makes it unique: no two records can
/// share a start, since both would have positive length and overlap.
pub open spec fn record_pos(s: Seq<ActualBufferChunk>, idx: nat) -> int {
    choose|i: int| 0 <= i < s.len() && (#[trigger] s[i]).index == idx
}

/// The record a live handle points at.
pub open spec fn the_record(p: PoolView, c: ChunkView) -> ActualBufferChunk {
    let s = p.buffers[c.buffer_id as int].chunks;
    s[record_pos(s, c.index)]
}

/// The buffer with its record list replaced.
pub open spec fn buf_with_chunks(b: BufView, s: Seq<ActualBufferChunk>) -> BufView {
    BufView { chunks: s, ..b }
}

/// The pool with the record of handle `c` replaced by `rec`.
pub open spec fn pool_update_record(p: PoolView, c: ChunkView, rec: ActualBufferChunk) -> PoolView {
    let b = p.buffers[c.buffer_id as int];
    pool_with_buffer(
        p,
        c.buffer_id as int,
        buf_with_chunks(b, b.chunks.update(record_pos(b.chunks, c.index), rec)),
    )
}

/// The pool with the record of handle `c` removed: its element range is free
/// again.
pub open spec fn pool_remove_record(p: PoolView, c: ChunkView) -> PoolView {
    let b = p.buffers[c.buffer_id as int];
    pool_with_buffer(
        p,
        c.buffer_id as int,
        buf_with_chunks(b, b.chunks.remove(record_pos(b.chunks, c.index))),
    )
}

/// In a well-formed buffer the record starting at a given element is unique:
/// any position holding that start is the `record_pos`.
pub proof fn lemma_record_pos_unique(b: BufView, es: nat, idx: nat, j: int)
    requires
        buf_wf(b, es),
        0 <= j < b.chunks.len(),
        b.chunks[j].index == idx,
    ensures
        has_record(b.chunks, idx),
        record_pos(b.chunks, idx) == j,
{
    assert(has_record(b.chunks, idx));
    let i = record_pos(b.chunks, idx);
    if i != j {
        assert(recs_disjoint(b.chunks[i], b.chunks[j]));
        assert(rec_wf(b.chunks[i], b.capacity));
        assert(rec_wf(b.chunks[j], b.capacity));
    }
}

/// Changing only the reference counts of one record, while keeping at least
/// one CPU reference, preserves well-formedness.
proof fn lemma_counts_update_keeps_wf(pre: BufView, post: BufView, j: int, es: nat)
    requires
        buf_wf(pre, es),
        0 <= j < pre.chunks.len(),
        post.capacity == pre.capacity,
        post.next_index == pre.next_index,
        post.chunks.len() == pre.chunks.len(),
        forall|i: int|
            0 <= i < pre.chunks.len() && i != j ==> post.chunks[i] == pre.chunks[i],
        post.chunks[j].index == pre.chunks[j].index,
        post.chunks[j].len == pre.chunks[j].len,
        post.chunks[j].num_cpu_accesses >= 1,
    ensures
        buf_wf(post, es),
{
    assert forall|i: int| 0 <= i < post.chunks.len() implies rec_wf(
        #[trigger] post.chunks[i],
        post.capacity,
    ) by {
        assert(rec_wf(pre.chunks[i], pre.capacity));
    }
    assert forall|i: int, k: int|
        0 <= i < post.chunks.len() && 0 <= k < post.chunks.len() && i != k implies recs_disjoint(
        #[trigger] post.chunks[i],
        #[trigger] post.chunks[k],
    ) by {
        assert(recs_disjoint(pre.chunks[i], pre.chunks[k]));
    }
}

/// Removing one record preserves well-formedness.
proof fn lemma_remove_keeps_wf(pre: BufView, post: BufView, j: int, es: nat)
    requires
        buf_wf(pre, es),
        0 <= j < pre.chunks.len(),
        post.capacity == pre.capacity,
        post.next_index == pre.next_index,
        post.chunks == pre.chunks.remove(j),
    ensures
        buf_wf(post, es),
{
    assert forall|i: int| 0 <= i < post.chunks.len() implies rec_wf(
        #[trigger] post.chunks[i],
        post.capacity,
    ) by {
        if i < j {
            assert(post.chunks[i] == pre.chunks[i]);
        } else {
            assert(post.chunks[i] == pre.chunks[i + 1]);
        }
    }
    assert forall|i: int, k: int|
        0 <= i < post.chunks.len() && 0 <= k < post.chunks.len() && i != k implies recs_disjoint(
        #[trigger] post.chunks[i],
        #[trigger] post.chunks[k],
    ) by {
        let pi: int = if i < j {
            i
        } else {
            i + 1
        };
        let pk: int = if k < j {
            k
        } else {
            k + 1
        };
        assert(post.chunks[i] == pre.chunks[pi]);
        assert(post.chunks[k] == pre.chunks[pk]);
        assert(recs_disjoint(pre.chunks[pi], pre.chunks[pk]));
    }
}

/// After the record starting at a given element is removed, no record starts
/// there any more: the range is fully released, and a second release of the
/// same handle is impossible.
pub proof fn lemma_removed_record_gone(b: BufView, es: nat, j: int)
    requires
        buf_wf(b, es),
        0 <= j < b.chunks.len(),
    ensures
        !has_record(b.chunks.remove(j), b.chunks[j].index as nat),
{
    let rem = b.chunks.remove(j);
    assert forall|i: int| 0 <= i < rem.len() implies (#[trigger] rem[i]).index
        != b.chunks[j].index by {
        let pi: int = if i < j {
            i
        } else {
            i + 1
        };
        assert(rem[i] == b.chunks[pi]);
        assert(recs_disjoint(b.chunks[pi], b.chunks[j]));
        assert(rec_wf(b.chunks[pi], b.capacity));
        assert(rec_wf(b.chunks[j], b.capacity));
    }
}

impl XallocCpuBufferPool {
    /// Position, in buffer `buffer_id`'s record list, of the record starting
    /// at element `index`, if one does.
    fn find_pos(&self, buffer_id: usize, index: usize) -> (r: Option<usize>)
        requires
            self.wf(),
            buffer_id < self@.buffers.len(),
        ensures
            match r {
                Some(j) => {
                    &&& j < self@.buffers[buffer_id as int].chunks.len()
                    &&& self@.buffers[buffer_id as int].chunks[j as int].index == index
                    &&& j == record_pos(self@.buffers[buffer_id as int].chunks, index as nat)
                    &&& has_record(self@.buffers[buffer_id as int].chunks, index as nat)
                },
                None => !has_record(self@.buffers[buffer_id as int].chunks, index as nat),
            },
    {
        let buf = &self.buffers[buffer_id];
        let ghost bv = self@.buffers[buffer_id as int];
        let mut k: usize = 0;
        while k < buf.chunks_in_use.len()
            invariant
                self.wf(),
                buffer_id < self@.buffers.len(),
                bv == self@.buffers[buffer_id as int],
                buf == &self.buffers[buffer_id as int],
                k <= buf.chunks_in_use.len(),
                forall|i: int| 0 <= i < k ==> (#[trigger] bv.chunks[i]).index != index,
            decreases buf.chunks_in_use.len() - k,
        {
            if buf.chunks_in_use[k].index == index {
                proof {
                    lemma_record_pos_unique(bv, self@.element_size, index as nat, k as int);
                }
                return Some(k);
            }
            k = k + 1;
        }
        None
    }
}

impl XallocCpuBufferPoolChunk {
    /// First occupied element within the backing buffer.
    pub fn index(&self) -> (r: usize)
        ensures
            r == self@.index,
    {
        self.index
    }

    /// Bytes added to `index * element_size` to reach the data.
    pub fn align_offset(&self) -> (r: usize)
        ensures
            r == self@.align_offset,
    {
        self.align_offset
    }

    /// Number of elements the caller asked for.
    pub fn requested_len(&self) -> (r: usize)
        ensures
            r == self@.requested_len,
    {
        self.requested_len
    }

    /// Position of the backing buffer within the pool's buffer list.
    pub fn buffer_id(&self) -> (r: usize)
        ensures
            r == self@.buffer_id,
    {
        self.buffer_id
    }

    /// Duplicates the handle.  The shared record gains one CPU reference, so
    /// the range stays in use until every duplicate is released.  The caller
    /// guarantees the reference count has room; running it over is a misuse
    /// of the API, not a runtime condition.
    pub fn clone_chunk(&self, pool: &mut XallocCpuBufferPool) -> (r: XallocCpuBufferPoolChunk)
        requires
            old(pool).wf(),
            chunk_live(self@, old(pool)@),
            self@.requested_len > 0 ==> the_record(old(pool)@, self@).num_cpu_accesses
                < usize::MAX,
        ensures
            final(pool).wf(),
            pool_preserves(old(pool)@, final(pool)@),
            r@ == self@,
            chunk_live(self@, final(pool)@),
            self@.requested_len == 0 ==> final(pool)@ == old(pool)@,
            self@.requested_len > 0 ==> final(pool)@ == pool_update_record(
                old(pool)@,
                self@,
                (ActualBufferChunk {
                    num_cpu_accesses: (the_record(old(pool)@, self@).num_cpu_accesses + 1) as usize,
                    ..the_record(old(pool)@, self@)
                }),
            ),
    {
        let r = XallocCpuBufferPoolChunk {
            buffer_id: self.buffer_id,
            index: self.index,
            align_offset: self.align_offset,
            requested_len: self.requested_len,
        };
        if self.requested_len == 0 {
            return r;
        }
        let ghost pre = pool@;
        let j = match pool.find_pos(self.buffer_id, self.index) {
            Some(j) => j,
            None => {
                proof {
                    assert(false);
                }
                vstd::pervasive::unreached()
            },
        };
        let buf = &mut pool.buffers[self.buffer_id];
        let rec = &mut buf.chunks_in_use[j];
        rec.num_cpu_accesses = rec.num_cpu_accesses + 1;
        proof {
            lemma_bufs_view_update(
                old(pool).buffers@,
                pool.buffers@,
                self.buffer_id as int,
                pool.buffers@[self.buffer_id as int],
            );
            lemma_counts_update_keeps_wf(
                pre.buffers[self.buffer_id as int],
                pool@.buffers[self.buffer_id as int],
                j as int,
                pre.element_size,
            );
            assert forall|i: int| 0 <= i < pool@.buffers.len() implies buf_wf(
                #[trigger] pool@.buffers[i],
                pool@.element_size,
            ) by {
                if i != self.buffer_id as int {
                    assert(pool@.buffers[i] == pre.buffers[i]);
                }
            }
            assert(pool@ == pool_update_record(
                pre,
                self@,
                (ActualBufferChunk {
                    num_cpu_accesses: (the_record(pre, self@).num_cpu_accesses + 1) as usize,
                    ..the_record(pre, self@)
                }),
            ));
        }
        r
    }

    /// Takes the exclusive GPU lock on the chunk: fails when any GPU lock is
    /// already held, otherwise sets the GPU reference count to 1.  The
    /// zero-length special case succeeds without touching anything.
    pub fn try_gpu_lock(&self, pool: &mut XallocCpuBufferPool) -> (r: Result<(), AccessError>)
        requires
            old(pool).wf(),
            chunk_live(self@, old(pool)@),
        ensures
            final(pool).wf(),
            pool_preserves(old(pool)@, final(pool)@),
            chunk_live(self@, final(pool)@),
            self@.requested_len == 0 ==> r == Ok::<(), AccessError>(()) && final(pool)@ == old(
                pool,
            )@,
            self@.requested_len > 0 ==> {
                &&& the_record(old(pool)@, self@).num_gpu_accesses != 0 ==> r == Err::<
                    (),
                    AccessError,
                >(AccessError::AlreadyInUse) && final(pool)@ == old(pool)@
                &&& the_record(old(pool)@, self@).num_gpu_accesses == 0 ==> r == Ok::<
                    (),
                    AccessError,
                >(()) && final(pool)@ == pool_update_record(
                    old(pool)@,
                    self@,
                    (ActualBufferChunk { num_gpu_accesses: 1, ..the_record(old(pool)@, self@) }),
                )
            },
    {
        if self.requested_len == 0 {
            return Ok(());
        }
        let ghost pre = pool@;
        let j = match pool.find_pos(self.buffer_id, self.index) {
            Some(j) => j,
            None => {
                proof {
                    assert(false);
                }
                vstd::pervasive::unreached()
            },
        };
        if pool.buffers[self.buffer_id].chunks_in_use[j].num_gpu_accesses != 0 {
            return Err(AccessError::AlreadyInUse);
        }
        let buf = &mut pool.buffers[self.buffer_id];
        let rec = &mut buf.chunks_in_use[j];
        rec.num_gpu_accesses = 1;
        proof {
            lemma_bufs_view_update(
                old(pool).buffers@,
                pool.buffers@,
                self.buffer_id as int,
                pool.buffers@[self.buffer_id as int],
            );
            lemma_counts_update_keeps_wf(
                pre.buffers[self.buffer_id as int],
                pool@.buffers[self.buffer_id as int],
                j as int,
                pre.element_size,
            );
            assert forall|i: int| 0 <= i < pool@.buffers.len() implies buf_wf(
                #[trigger] pool@.buffers[i],
                pool@.element_size,
            ) by {
                if i != self.buffer_id as int {
                    assert(pool@.buffers[i] == pre.buffers[i]);
                }
            }
            assert(pool@ == pool_update_record(
                pre,
                self@,
                (ActualBufferChunk { num_gpu_accesses: 1, ..the_record(pre, self@) }),
            ));
        }
        Ok(())
    }

    /// Adds one shared GPU lock.  The caller guarantees a GPU lock is
    /// already held and that the count has room; anything else is a misuse
    /// of the API.  The zero-length special case touches nothing.
    pub fn increase_gpu_lock(&self, pool: &mut XallocCpuBufferPool)
        requires
            old(pool).wf(),
            chunk_live(self@, old(pool)@),
            self@.requested_len > 0 ==> 1 <= the_record(old(pool)@, self@).num_gpu_accesses
                < usize::MAX,
        ensures
            final(pool).wf(),
            pool_preserves(old(pool)@, final(pool)@),
            chunk_live(self@, final(pool)@),
            self@.requested_len == 0 ==> final(pool)@ == old(pool)@,
            self@.requested_len > 0 ==> final(pool)@ == pool_update_record(
                old(pool)@,
                self@,
                (ActualBufferChunk {
                    num_gpu_accesses: (the_record(old(pool)@, self@).num_gpu_accesses + 1) as usize,
                    ..the_record(old(pool)@, self@)
                }),
            ),
    {
        if self.requested_len == 0 {
            return;
        }
        let ghost pre = pool@;
        let j = match pool.find_pos(self.buffer_id, self.index) {
            Some(j) => j,
            None => {
                proof {
                    assert(false);
                }
                vstd::pervasive::unreached()
            },
        };
        let buf = &mut pool.buffers[self.buffer_id];
        let rec = &mut buf.chunks_in_use[j];
        rec.num_gpu_accesses = rec.num_gpu_accesses + 1;
        proof {
            lemma_bufs_view_update(
                old(pool).buffers@,
                pool.buffers@,
                self.buffer_id as int,
                pool.buffers@[self.buffer_id as int],
            );
            lemma_counts_update_keeps_wf(
                pre.buffers[self.buffer_id as int],
                pool@.buffers[self.buffer_id as int],
                j as int,
                pre.element_size,
            );
            assert forall|i: int| 0 <= i < pool@.buffers.len() implies buf_wf(
                #[trigger] pool@.buffers[i],
                pool@.element_size,
            ) by {
                if i != self.buffer_id as int {
                    assert(pool@.buffers[i] == pre.buffers[i]);
                }
            }
            assert(pool@ == pool_update_record(
                pre,
                self@,
                (ActualBufferChunk {
                    num_gpu_accesses: (the_record(pre, self@).num_gpu_accesses + 1) as usize,
                    ..the_record(pre, self@)
                }),
            ));
        }
    }

    /// Releases one GPU lock.  The caller guarantees one is held; anything
    /// else is a misuse of the API.  The zero-length special case touches
    /// nothing.
    pub fn unlock(&self, pool: &mut XallocCpuBufferPool)
        requires
            old(pool).wf(),
            chunk_live(self@, old(pool)@),
            self@.requested_len > 0 ==> 1 <= the_record(old(pool)@, self@).num_gpu_accesses,
        ensures
            final(pool).wf(),
            pool_preserves(old(pool)@, final(pool)@),
            chunk_live(self@, final(pool)@),
            self@.requested_len == 0 ==> final(pool)@ == old(pool)@,
            self@.requested_len > 0 ==> final(pool)@ == pool_update_record(
                old(pool)@,
                self@,
                (ActualBufferChunk {
                    num_gpu_accesses: (the_record(old(pool)@, self@).num_gpu_accesses - 1) as usize,
                    ..the_record(old(pool)@, self@)
                }),
            ),
    {
        if self.requested_len == 0 {
            return;
        }
        let ghost pre = pool@;
        let j = match pool.find_pos(self.buffer_id, self.index) {
            Some(j) => j,
            None => {
                proof {
                    assert(false);
                }
                vstd::pervasive::unreached()
            },
        };
        let buf = &mut pool.buffers[self.buffer_id];
        let rec = &mut buf.chunks_in_use[j];
        rec.num_gpu_accesses = rec.num_gpu_accesses - 1;
        proof {
            lemma_bufs_view_update(
                old(pool).buffers@,
                pool.buffers@,
                self.buffer_id as int,
                pool.buffers@[self.buffer_id as int],
            );
            lemma_counts_update_keeps_wf(
                pre.buffers[self.buffer_id as int],
                pool@.buffers[self.buffer_id as int],
                j as int,
                pre.element_size,
            );
            assert forall|i: int| 0 <= i < pool@.buffers.len() implies buf_wf(
                #[trigger] pool@.buffers[i],
                pool@.element_size,
            ) by {
                if i != self.buffer_id as int {
                    assert(pool@.buffers[i] == pre.buffers[i]);
                }
            }
            assert(pool@ == pool_update_record(
                pre,
                self@,
                (ActualBufferChunk {
                    num_gpu_accesses: (the_record(pre, self@).num_gpu_accesses - 1) as usize,
                    ..the_record(pre, self@)
                }),
            ));
        }
    }

    /// Gives the handle up.  With other handles outstanding the record just
    /// loses one CPU reference; as the last handle it removes the record
    /// entirely, freeing the element range for reuse.  The caller guarantees
    /// that no GPU lock is outstanding at final release; violating that is a
    /// misuse of the API.  The zero-length special case touches nothing.
    pub fn release(self, pool: &mut XallocCpuBufferPool)
        requires
            old(pool).wf(),
            chunk_live(self@, old(pool)@),
            self@.requested_len > 0 && the_record(old(pool)@, self@).num_cpu_accesses == 1
                ==> the_record(old(pool)@, self@).num_gpu_accesses == 0,
        ensures
            final(pool).wf(),
            pool_preserves(old(pool)@, final(pool)@),
            self@.requested_len == 0 ==> final(pool)@ == old(pool)@,
            self@.requested_len > 0 && the_record(old(pool)@, self@).num_cpu_accesses >= 2
                ==> final(pool)@ == pool_update_record(
                old(pool)@,
                self@,
                (ActualBufferChunk {
                    num_cpu_accesses: (the_record(old(pool)@, self@).num_cpu_accesses - 1) as usize,
                    ..the_record(old(pool)@, self@)
                }),
            ),
            self@.requested_len > 0 && the_record(old(pool)@, self@).num_cpu_accesses == 1 ==> {
                &&& final(pool)@ == pool_remove_record(old(pool)@, self@)
                &&& !has_record(
                    final(pool)@.buffers[self@.buffer_id as int].chunks,
                    self@.index,
                )
            },
    {
        if self.requested_len == 0 {
            return;
        }
        let ghost pre = pool@;
        let j = match pool.find_pos(self.buffer_id, self.index) {
            Some(j) => j,
            None => {
                proof {
                    assert(false);
                }
                vstd::pervasive::unreached()
            },
        };
        let buf = &mut pool.buffers[self.buffer_id];
        if buf.chunks_in_use[j].num_cpu_accesses >= 2 {
            let rec = &mut buf.chunks_in_use[j];
            rec.num_cpu_accesses = rec.num_cpu_accesses - 1;
            proof {
                lemma_bufs_view_update(
                    old(pool).buffers@,
                    pool.buffers@,
                    self.buffer_id as int,
                    pool.buffers@[self.buffer_id as int],
                );
                lemma_counts_update_keeps_wf(
                    pre.buffers[self.buffer_id as int],
                    pool@.buffers[self.buffer_id as int],
                    j as int,
                    pre.element_size,
                );
                assert forall|i: int| 0 <= i < pool@.buffers.len() implies buf_wf(
                    #[trigger] pool@.buffers[i],
                    pool@.element_size,
                ) by {
                    if i != self.buffer_id as int {
                        assert(pool@.buffers[i] == pre.buffers[i]);
                    }
                }
                assert(pool@ == pool_update_record(
                    pre,
                    self@,
                    (ActualBufferChunk {
                        num_cpu_accesses: (the_record(pre, self@).num_cpu_accesses - 1) as usize,
                        ..the_record(pre, self@)
                    }),
                ));
            }
        } else {
            buf.chunks_in_use.remove(j);
            proof {
                lemma_bufs_view_update(
                    old(pool).buffers@,
                    pool.buffers@,
                    self.buffer_id as int,
                    pool.buffers@[self.buffer_id as int],
                );
                lemma_remove_keeps_wf(
                    pre.buffers[self.buffer_id as int],
                    pool@.buffers[self.buffer_id as int],
                    j as int,
                    pre.element_size,
                );
                lemma_removed_record_gone(
                    pre.buffers[self.buffer_id as int],
                    pre.element_size,
                    j as int,
                );
                assert forall|i: int| 0 <= i < pool@.buffers.len() implies buf_wf(
                    #[trigger] pool@.buffers[i],
                    pool@.element_size,
                ) by {
                    if i != self.buffer_id as int {
                        assert(pool@.buffers[i] == pre.buffers[i]);
                    }
                }
                assert(pool@ == pool_remove_record(pre, self@));
            }
        }
    }
}

/// The conflict-detection key of a handle: the backing buffer's identity and
/// the sub-range's start, with the zero-length special case given a sentinel
/// start that no real record can have.
pub open spec fn spec_conflict_key(c: ChunkView) -> (nat, nat) {
    (
        c.buffer_id,
        if c.requested_len == 0 {
            usize::MAX as nat
        } else {
            c.index
        },
    )
}

impl XallocCpuBufferPoolChunk {
    /// Byte offset of the chunk's data within the backing buffer: the element
    /// position in bytes plus the alignment offset.  It lies within the
    /// buffer's bytes and is a multiple of the pool's alignment.
    pub fn byte_offset(&self, pool: &XallocCpuBufferPool) -> (r: usize)
        requires
            pool.wf(),
            chunk_bounds(self@, pool@),
        ensures
            r == self@.index * pool@.element_size + self@.align_offset,
            r as nat % pool@.align_bytes == 0,
    {
        proof {
            assert(buf_wf(pool@.buffers[self.buffer_id as int], pool@.element_size));
        }
        self.index * pool.element_size + self.align_offset
    }

    /// Size of the chunk's data in bytes, as the caller requested it.
    pub fn size(&self, pool: &XallocCpuBufferPool) -> (r: usize)
        requires
            pool.wf(),
            chunk_bounds(self@, pool@),
        ensures
            r == self@.requested_len * pool@.element_size,
    {
        proof {
            assert(buf_wf(pool@.buffers[self.buffer_id as int], pool@.element_size));
            vstd::arithmetic::mul::lemma_mul_inequality(
                self.requested_len as int,
                pool@.buffers[self.buffer_id as int].capacity as int,
                pool.element_size as int,
            );
        }
        self.requested_len * pool.element_size
    }

    /// The conflict-detection key: buffer identity plus sub-range start.  A
    /// zero-length handle gets a sentinel start that cannot collide with any
    /// real record, whose start always lies strictly within the capacity.
    pub fn conflict_key(&self, pool: &XallocCpuBufferPool) -> (r: (u64, usize))
        requires
            pool.wf(),
            chunk_live(self@, pool@),
        ensures
            r.0 as nat == self@.buffer_id,
            r.1 as nat == spec_conflict_key(self@).1,
            self@.requested_len > 0 ==> r.1 as nat == self@.index && r.1 != usize::MAX,
    {
        proof {
            if self.requested_len > 0 {
                let s = pool@.buffers[self.buffer_id as int].chunks;
                let p = record_pos(s, self.index as nat);
                assert(0 <= p < s.len() && s[p].index == self.index);
                assert(rec_wf(s[p], pool@.buffers[self.buffer_id as int].capacity));
            }
        }
        (
            self.buffer_id as u64,
            if self.requested_len == 0 {
                usize::MAX
            } else {
                self.index
            },
        )
    }

    /// Whether this chunk and another may touch the same memory: true
    /// exactly when their conflict keys coincide.
    pub fn conflicts_buffer(
        &self,
        other: &XallocCpuBufferPoolChunk,
        pool: &XallocCpuBufferPool,
    ) -> (r: bool)
        requires
            pool.wf(),
            chunk_live(self@, pool@),
            chunk_live(other@, pool@),
        ensures
            r == (spec_conflict_key(self@) == spec_conflict_key(other@)),
    {
        let a = self.conflict_key(pool);
        let b = other.conflict_key(pool);
        a.0 == b.0 && a.1 == b.1
    }

    /// A pool chunk never aliases an image resource.
    pub fn conflicts_image(&self) -> (r: bool)
        ensures
            !r,
    {
        false
    }
}

impl XallocCpuBufferPool {
    /// How many backing buffers the pool has created so far.
    pub fn num_buffers(&self) -> (r: usize)
        ensures
            r == self@.buffers.len(),
    {
        self.buffers.len()
    }

    /// Element capacity of buffer `buffer_id`.
    pub fn buffer_capacity(&self, buffer_id: usize) -> (r: usize)
        requires
            self.wf(),
            buffer_id < self@.buffers.len(),
        ensures
            r == self@.buffers[buffer_id as int].capacity,
    {
        self.buffers[buffer_id].capacity
    }

    /// How many chunk records are in use on buffer `buffer_id`.
    pub fn chunk_record_count(&self, buffer_id: usize) -> (r: usize)
        requires
            self.wf(),
            buffer_id < self@.buffers.len(),
        ensures
            r == self@.buffers[buffer_id as int].chunks.len(),
    {
        self.buffers[buffer_id].chunks_in_use.len()
    }

    /// Whether a record starting at element `index` is in use on buffer
    /// `buffer_id`.
    pub fn has_chunk_record(&self, buffer_id: usize, index: usize) -> (r: bool)
        requires
            self.wf(),
            buffer_id < self@.buffers.len(),
        ensures
            r == has_record(self@.buffers[buffer_id as int].chunks, index as nat),
    {
        match self.find_pos(buffer_id, index) {
            Some(_) => true,
            None => false,
        }
    }
}

/// A single-element subbuffer allocated from the pool: a wrapper around the
/// one-element chunk, with the same lifecycle.
pub struct XallocCpuBufferPoolSubbuffer {
    chunk: XallocCpuBufferPoolChunk,
}

impl View for XallocCpuBufferPoolSubbuffer {
    type V = ChunkView;

    closed spec fn view(&self) -> ChunkView {
        self.chunk@
    }
}

impl XallocCpuBufferPoolSubbuffer {
    /// First occupied element within the backing buffer.
    pub fn index(&self) -> (r: usize)
        ensures
            r == self@.index,
    {
        self.chunk.index()
    }

    /// Position of the backing buffer within the pool's buffer list.
    pub fn buffer_id(&self) -> (r: usize)
        ensures
            r == self@.buffer_id,
    {
        self.chunk.buffer_id()
    }

    /// Byte offset of the subbuffer's data within the backing buffer.
    pub fn byte_offset(&self, pool: &XallocCpuBufferPool) -> (r: usize)
        requires
            pool.wf(),
            chunk_bounds(self@, pool@),
        ensures
            r == self@.index * pool@.element_size + self@.align_offset,
            r as nat % pool@.align_bytes == 0,
    {
        self.chunk.byte_offset(pool)
    }

    /// Size of the subbuffer's data in bytes.
    pub fn size(&self, pool: &XallocCpuBufferPool) -> (r: usize)
        requires
            pool.wf(),
            chunk_bounds(self@, pool@),
        ensures
            r == self@.requested_len * pool@.element_size,
    {
        self.chunk.size(pool)
    }

    /// The conflict-detection key, as for a chunk.
    pub fn conflict_key(&self, pool: &XallocCpuBufferPool) -> (r: (u64, usize))
        requires
            pool.wf(),
            chunk_live(self@, pool@),
        ensures
            r.0 as nat == self@.buffer_id,
            r.1 as nat == spec_conflict_key(self@).1,
            self@.requested_len > 0 ==> r.1 as nat == self@.index && r.1 != usize::MAX,
    {
        self.chunk.conflict_key(pool)
    }

    /// A pool subbuffer never aliases an image resource.
    pub fn conflicts_image(&self) -> (r: bool)
        ensures
            !r,
    {
        false
    }

    /// Duplicates the handle, adding one CPU reference to the shared record.
    pub fn clone_subbuffer(&self, pool: &mut XallocCpuBufferPool) -> (r:
        XallocCpuBufferPoolSubbuffer)
        requires
            old(pool).wf(),
            chunk_live(self@, old(pool)@),
            self@.requested_len > 0 ==> the_record(old(pool)@, self@).num_cpu_accesses
                < usize::MAX,
        ensures
            final(pool).wf(),
            pool_preserves(old(pool)@, final(pool)@),
            r@ == self@,
            chunk_live(self@, final(pool)@),
            self@.requested_len == 0 ==> final(pool)@ == old(pool)@,
            self@.requested_len > 0 ==> final(pool)@ == pool_update_record(
                old(pool)@,
                self@,
                (ActualBufferChunk {
                    num_cpu_accesses: (the_record(old(pool)@, self@).num_cpu_accesses + 1) as usize,
                    ..the_record(old(pool)@, self@)
                }),
            ),
    {
        XallocCpuBufferPoolSubbuffer { chunk: self.chunk.clone_chunk(pool) }
    }

    /// Takes the exclusive GPU lock, as for a chunk.
    pub fn try_gpu_lock(&self, pool: &mut XallocCpuBufferPool) -> (r: Result<(), AccessError>)
        requires
            old(pool).wf(),
            chunk_live(self@, old(pool)@),
        ensures
            final(pool).wf(),
            pool_preserves(old(pool)@, final(pool)@),
            chunk_live(self@, final(pool)@),
            self@.requested_len == 0 ==> r == Ok::<(), AccessError>(()) && final(pool)@ == old(
                pool,
            )@,
            self@.requested_len > 0 ==> {
                &&& the_record(old(pool)@, self@).num_gpu_accesses != 0 ==> r == Err::<
                    (),
                    AccessError,
                >(AccessError::AlreadyInUse) && final(pool)@ == old(pool)@
                &&& the_record(old(pool)@, self@).num_gpu_accesses == 0 ==> r == Ok::<
                    (),
                    AccessError,
                >(()) && final(pool)@ == pool_update_record(
                    old(pool)@,
                    self@,
                    (ActualBufferChunk { num_gpu_accesses: 1, ..the_record(old(pool)@, self@) }),
                )
            },
    {
        self.chunk.try_gpu_lock(pool)
    }

    /// Adds one shared GPU lock, as for a chunk.
    pub fn increase_gpu_lock(&self, pool: &mut XallocCpuBufferPool)
        requires
            old(pool).wf(),
            chunk_live(self@, old(pool)@),
            self@.requested_len > 0 ==> 1 <= the_record(old(pool)@, self@).num_gpu_accesses
                < usize::MAX,
        ensures
            final(pool).wf(),
            pool_preserves(old(pool)@, final(pool)@),
            chunk_live(self@, final(pool)@),
            self@.requested_len == 0 ==> final(pool)@ == old(pool)@,
            self@.requested_len > 0 ==> final(pool)@ == pool_update_record(
                old(pool)@,
                self@,
                (ActualBufferChunk {
                    num_gpu_accesses: (the_record(old(pool)@, self@).num_gpu_accesses + 1) as usize,
                    ..the_record(old(pool)@, self@)
                }),
            ),
    {
        self.chunk.increase_gpu_lock(pool)
    }

    /// Releases one GPU lock, as for a chunk.
    pub fn unlock(&self, pool: &mut XallocCpuBufferPool)
        requires
            old(pool).wf(),
            chunk_live(self@, old(pool)@),
            self@.requested_len > 0 ==> 1 <= the_record(old(pool)@, self@).num_gpu_accesses,
        ensures
            final(pool).wf(),
            pool_preserves(old(pool)@, final(pool)@),
            chunk_live(self@, final(pool)@),
            self@.requested_len == 0 ==> final(pool)@ == old(pool)@,
            self@.requested_len > 0 ==> final(pool)@ == pool_update_record(
                old(pool)@,
                self@,
                (ActualBufferChunk {
                    num_gpu_accesses: (the_record(old(pool)@, self@).num_gpu_accesses - 1) as usize,
                    ..the_record(old(pool)@, self@)
                }),
            ),
    {
        self.chunk.unlock(pool)
    }

    /// Gives the handle up, as for a chunk: the record loses one CPU
    /// reference, or is removed entirely when this was the last one.
    pub fn release(self, pool: &mut XallocCpuBufferPool)
        requires
            old(pool).wf(),
            chunk_live(self@, old(pool)@),
            self@.requested_len > 0 && the_record(old(pool)@, self@).num_cpu_accesses == 1
                ==> the_record(old(pool)@, self@).num_gpu_accesses == 0,
        ensures
            final(pool).wf(),
            pool_preserves(old(pool)@, final(pool)@),
            self@.requested_len == 0 ==> final(pool)@ == old(pool)@,
            self@.requested_len > 0 && the_record(old(pool)@, self@).num_cpu_accesses >= 2
                ==> final(pool)@ == pool_update_record(
                old(pool)@,
                self@,
                (ActualBufferChunk {
                    num_cpu_accesses: (the_record(old(pool)@, self@).num_cpu_accesses - 1) as usize,
                    ..the_record(old(pool)@, self@)
                }),
            ),
            self@.requested_len > 0 && the_record(old(pool)@, self@).num_cpu_accesses == 1 ==> {
                &&& final(pool)@ == pool_remove_record(old(pool)@, self@)
                &&& !has_record(
                    final(pool)@.buffers[self@.buffer_id as int].chunks,
                    self@.index,
                )
            },
    {
        self.chunk.release(pool)
    }
}

/// Pushing a record whose range is free and within the capacity, and moving
/// the cursor to the record's end, preserves well-formedness.
proof fn lemma_alloc_keeps_wf(pre: BufView, post: BufView, rec: ActualBufferChunk, s: nat)
    requires
        buf_wf(pre, s),
        1 <= rec.len,
        rec.index + rec.len <= pre.capacity,
        rec.num_cpu_accesses == 1,
        range_free(pre, rec.index as int, rec.len as int),
        post.capacity == pre.capacity,
        post.next_index == rec.index + rec.len,
        post.chunks == pre.chunks.push(rec),
    ensures
        buf_wf(post, s),
{
    assert forall|i: int| 0 <= i < post.chunks.len() implies rec_wf(
        #[trigger] post.chunks[i],
        post.capacity,
    ) by {
        if i < pre.chunks.len() {
            assert(post.chunks[i] == pre.chunks[i]);
        } else {
            assert(post.chunks[i] == rec);
        }
    }
    assert forall|i: int, j: int|
        0 <= i < post.chunks.len() && 0 <= j < post.chunks.len() && i != j implies recs_disjoint(
        #[trigger] post.chunks[i],
        #[trigger] post.chunks[j],
    ) by {
        if i < pre.chunks.len() && j < pre.chunks.len() {
            assert(recs_disjoint(pre.chunks[i], pre.chunks[j]));
        } else if i < pre.chunks.len() {
            assert(!rec_overlaps(pre.chunks[i], rec.index as int, rec.len as int));
        } else {
            assert(!rec_overlaps(pre.chunks[j], rec.index as int, rec.len as int));
        }
    }
}

} // verus!
