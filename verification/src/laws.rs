//! The pool's governing laws, stated and proved once and for all: the
//! no-overlap invariant, the growth policy on an oversized request, and the
//! exactness of reference counting under clone and release.

use vstd::prelude::*;
use crate::cpu_pool::ActualBufferChunk;
use crate::cpu_pool::ChunkView;
use crate::cpu_pool::PoolView;
use crate::cpu_pool::buf_wf;
use crate::cpu_pool::can_alloc_fast;
use crate::cpu_pool::chunk_live;
use crate::cpu_pool::cur_id;
use crate::cpu_pool::fallback_fits;
use crate::cpu_pool::grow_capacity;
use crate::cpu_pool::has_record;
use crate::cpu_pool::pool_capacity;
use crate::cpu_pool::pool_update_record;
use crate::cpu_pool::pool_wf;
use crate::cpu_pool::rec_wf;
use crate::cpu_pool::record_pos;
use crate::cpu_pool::recs_disjoint;
use crate::cpu_pool::spec_tentative_len;
use crate::cpu_pool::spec_tentative_offset;
use crate::cpu_pool::tentative_fits;
use crate::cpu_pool::the_record;

verus! {

/// No-overlap invariant: at all times, any two distinct live chunk records
/// on the same backing buffer of a well-formed pool occupy disjoint element
/// ranges.
pub proof fn lemma_no_overlap(p: PoolView, b: int, i: int, j: int)
    requires
        pool_wf(p),
        0 <= b < p.buffers.len(),
        0 <= i < p.buffers[b].chunks.len(),
        0 <= j < p.buffers[b].chunks.len(),
        i != j,
    ensures
        recs_disjoint(p.buffers[b].chunks[i], p.buffers[b].chunks[j]),
{
    assert(buf_wf(p.buffers[b], p.element_size));
}

/// Growth trigger: a request longer than the current capacity cannot be
/// served by the fast path, so `chunk` replaces the buffer exactly once, and
/// the capacity it grows to is `2 * rlen` — which, as `rlen` exceeds the
/// capacity `c`, is exactly `max(2c, 2·rlen)`.
pub proof fn lemma_growth_trigger(p: PoolView, rlen: nat)
    requires
        pool_wf(p),
        rlen > pool_capacity(p),
    ensures
        !can_alloc_fast(p, rlen),
        grow_capacity(p, rlen) == 2 * rlen,
        grow_capacity(p, rlen) >= 2 * pool_capacity(p),
{
    match p.current {
        None => {},
        Some(b) => {
            let buf = p.buffers[b];
            let s = p.element_size;
            let a = p.align_bytes;
            assert(buf_wf(buf, s));
            let aoff = spec_tentative_offset(buf, s, a);
            crate::alignment::lemma_align_offset_correct(
                buf.next_index as int,
                s as int,
                a as int,
            );
            crate::alignment::lemma_pad_covers(aoff, s as int);
            assert(spec_tentative_len(buf, rlen, s, a) >= rlen);
            assert(!tentative_fits(buf, rlen, s, a));
            assert(!fallback_fits(buf, rlen));
        },
    }
}

/// Reference counting is exact: duplicating a live handle adds one CPU
/// reference to its record, the handle stays live pointing at the bumped
/// record, and releasing the duplicate restores the pool to precisely the
/// state it had before the clone — the range is given back exactly once,
/// never twice.
pub proof fn lemma_clone_release_roundtrip(p: PoolView, c: ChunkView)
    requires
        pool_wf(p),
        chunk_live(c, p),
        c.requested_len > 0,
        the_record(p, c).num_cpu_accesses < usize::MAX,
    ensures
        ({
            let bumped_rec = ActualBufferChunk {
                num_cpu_accesses: (the_record(p, c).num_cpu_accesses + 1) as usize,
                ..the_record(p, c)
            };
            let after_clone = pool_update_record(p, c, bumped_rec);
            &&& chunk_live(c, after_clone)
            &&& the_record(after_clone, c) == bumped_rec
            &&& the_record(after_clone, c).num_cpu_accesses >= 2
            &&& pool_update_record(
                after_clone,
                c,
                (ActualBufferChunk {
                    num_cpu_accesses: (the_record(after_clone, c).num_cpu_accesses - 1) as usize,
                    ..the_record(after_clone, c)
                }),
            ) == p
        }),
{
    let b = c.buffer_id as int;
    let s0 = p.buffers[b].chunks;
    let j = record_pos(s0, c.index);
    assert(buf_wf(p.buffers[b], p.element_size));
    assert(0 <= j < s0.len() && s0[j].index == c.index);
    assert(rec_wf(s0[j], p.buffers[b].capacity));
    let bumped_rec = ActualBufferChunk {
        num_cpu_accesses: (s0[j].num_cpu_accesses + 1) as usize,
        ..s0[j]
    };
    let after_clone = pool_update_record(p, c, bumped_rec);
    let s1 = after_clone.buffers[b].chunks;
    assert(s1 == s0.update(j, bumped_rec));
    assert(s1[j].index == c.index);
    assert(has_record(s1, c.index));
    // The record's position is stable: uniqueness holds in the updated
    // buffer because ranges did not move.
    assert forall|i: int| 0 <= i < s1.len() && (#[trigger] s1[i]).index == c.index implies i
        == j by {
        if i != j {
            assert(s1[i] == s0[i]);
            assert(recs_disjoint(s0[i], s0[j]));
            assert(rec_wf(s0[i], p.buffers[b].capacity));
        }
    }
    let j1 = record_pos(s1, c.index);
    assert(s1[j1].index == c.index);
    assert(j1 == j);
    assert(the_record(after_clone, c) == bumped_rec);
    let unbumped = ActualBufferChunk {
        num_cpu_accesses: (bumped_rec.num_cpu_accesses - 1) as usize,
        ..bumped_rec
    };
    assert(unbumped == s0[j]);
    let back = pool_update_record(after_clone, c, unbumped);
    assert(back.buffers[b].chunks =~= s0);
    assert(back.buffers[b] == p.buffers[b]);
    assert(back.buffers =~= p.buffers);
    assert(back == p);
}

/// A zero-length acquisition pollutes nothing: it adds no record, moves no
/// cursor, and leaves the pool's entire state — hence every later placement
/// decision — exactly as it was.  This restates, as one fact, what the
/// allocation operations' contracts say for an empty request on a pool that
/// has a current buffer.
pub proof fn lemma_zero_len_no_pollution(pre: PoolView, post: PoolView, c: ChunkView)
    requires
        crate::cpu_pool::fast_alloc_post(pre, post, c, 0),
    ensures
        post == pre,
        c.requested_len == 0,
        c.buffer_id == cur_id(pre),
{
}

} // verus!
