//! The arena's guarantees, stated and proved over the model.
//!
//! Each proof function here is a law of the arena: address stability
//! under any later allocations, exact finalization order, and the
//! absence of growth once enough capacity has been reserved.

use vstd::prelude::*;
use crate::align::{spec_pad_len, lemma_pad_len_aligns};
use crate::model::{ArenaModel, AllocReq, ALIGN, arena_wf, arena_remaining, chunk_len, chunk_of,
    spec_grow, spec_reserve, spec_alloc, spec_alloc_seq, alloc_need, aligned_size, total_aligned,
    value_at, lemma_reserve_wf, lemma_alloc_wf};

verus! {

/// Retiring the active chunk moves it, untouched, to the end of the
/// retired sequence; every registered entry keeps its address and its
/// bytes.
pub proof fn lemma_grow_preserves_entry(m: ArenaModel, need: int, i: int)
    requires
        arena_wf(m),
        0 <= i < m.entries.len(),
    ensures
        spec_grow(m, need).entries[i] == m.entries[i],
        value_at(spec_grow(m, need), i) == value_at(m, i),
{
    let g = spec_grow(m, need);
    let e = m.entries[i];
    assert(crate::model::entry_in_bounds(m, e));
    if e.chunk < m.retired.len() {
        assert(chunk_of(g, e.chunk) == chunk_of(m, e.chunk));
    } else {
        assert(chunk_of(m, e.chunk) == m.current);
        assert(g.retired[e.chunk] == m.current);
    }
}

/// Reserving capacity never moves a value or changes its entry.
pub proof fn lemma_reserve_preserves_entry(m: ArenaModel, n: int, i: int)
    requires
        arena_wf(m),
        0 <= i < m.entries.len(),
    ensures
        spec_reserve(m, n).entries[i] == m.entries[i],
        value_at(spec_reserve(m, n), i) == value_at(m, i),
{
    if arena_remaining(m) < n {
        lemma_grow_preserves_entry(m, n, i);
    }
}

/// A later allocation never moves an earlier value or changes its entry,
/// even when it forces growth.
pub proof fn lemma_alloc_preserves_entry(m: ArenaModel, bytes: Seq<u8>, token: u64, i: int)
    requires
        arena_wf(m),
        0 <= i < m.entries.len(),
    ensures
        spec_alloc(m, bytes, token).entries[i] == m.entries[i],
        value_at(spec_alloc(m, bytes, token), i) == value_at(m, i),
{
    let need = alloc_need(m, bytes.len() as int);
    let m1 = spec_reserve(m, need);
    let a = spec_alloc(m, bytes, token);
    lemma_reserve_preserves_entry(m, need, i);
    lemma_reserve_wf(m, need);
    let e = m1.entries[i];
    assert(crate::model::entry_in_bounds(m1, e));
    assert(a.entries[i] == e);
    if e.chunk < m1.retired.len() {
        assert(chunk_of(a, e.chunk) == chunk_of(m1, e.chunk));
    } else {
        assert(chunk_of(m1, e.chunk) == m1.current);
        assert(chunk_of(a, e.chunk) == a.current);
        assert(a.current.data.subrange(e.offset, e.offset + e.size)
            =~= m1.current.data.subrange(e.offset, e.offset + e.size));
    }
}

/// Every allocation appends exactly one finalizer entry.
pub proof fn lemma_alloc_seq_entries_len(m: ArenaModel, reqs: Seq<AllocReq>)
    ensures
        spec_alloc_seq(m, reqs).entries.len() == m.entries.len() + reqs.len(),
    decreases reqs.len(),
{
    if reqs.len() > 0 {
        lemma_alloc_seq_entries_len(
            spec_alloc(m, reqs.first().bytes, reqs.first().token), reqs.drop_first());
    }
}

/// A run of allocations preserves well-formedness.
pub proof fn lemma_alloc_seq_wf(m: ArenaModel, reqs: Seq<AllocReq>)
    requires
        arena_wf(m),
    ensures
        arena_wf(spec_alloc_seq(m, reqs)),
    decreases reqs.len(),
{
    if reqs.len() > 0 {
        lemma_alloc_wf(m, reqs.first().bytes, reqs.first().token);
        lemma_alloc_seq_wf(
            spec_alloc(m, reqs.first().bytes, reqs.first().token), reqs.drop_first());
    }
}

/// Address stability: an address recorded after an allocation, and the
/// bytes stored there, stay exactly as they were through any later run of
/// allocations — including ones that force the arena to grow.
pub proof fn lemma_address_stability(m: ArenaModel, reqs: Seq<AllocReq>, i: int)
    requires
        arena_wf(m),
        0 <= i < m.entries.len(),
    ensures
        spec_alloc_seq(m, reqs).entries.len() == m.entries.len() + reqs.len(),
        spec_alloc_seq(m, reqs).entries[i] == m.entries[i],
        value_at(spec_alloc_seq(m, reqs), i) == value_at(m, i),
    decreases reqs.len(),
{
    lemma_alloc_seq_entries_len(m, reqs);
    if reqs.len() > 0 {
        let m1 = spec_alloc(m, reqs.first().bytes, reqs.first().token);
        lemma_alloc_preserves_entry(m, reqs.first().bytes, reqs.first().token, i);
        lemma_alloc_wf(m, reqs.first().bytes, reqs.first().token);
        lemma_address_stability(m1, reqs.drop_first(), i);
    }
}

/// Finalization order: after the allocation run X1, …, Xn, the finalizer
/// registry holds one entry per allocation, in exactly that order — the
/// i-th allocation's token and size sit at the i-th new registry slot.
/// Teardown returns the registry as it stands, so cleanups run X1 first,
/// Xn last.
pub proof fn lemma_finalization_order(m: ArenaModel, reqs: Seq<AllocReq>, i: int)
    requires
        arena_wf(m),
        0 <= i < reqs.len(),
    ensures
        spec_alloc_seq(m, reqs).entries.len() == m.entries.len() + reqs.len(),
        spec_alloc_seq(m, reqs).entries[m.entries.len() + i].token == reqs[i].token,
        spec_alloc_seq(m, reqs).entries[m.entries.len() + i].size == reqs[i].bytes.len(),
    decreases reqs.len(),
{
    lemma_alloc_seq_entries_len(m, reqs);
    let m1 = spec_alloc(m, reqs.first().bytes, reqs.first().token);
    lemma_alloc_wf(m, reqs.first().bytes, reqs.first().token);
    if i == 0 {
        assert(m1.entries[m.entries.len() as int].token == reqs[0].token);
        assert(m1.entries[m.entries.len() as int].size == reqs[0].bytes.len());
        if reqs.len() > 1 {
            lemma_address_stability(m1, reqs.drop_first(), m.entries.len() as int);
        } else {
            assert(spec_alloc_seq(m1, reqs.drop_first()) == m1);
        }
    } else {
        lemma_finalization_order(m1, reqs.drop_first(), i - 1);
        assert(reqs.drop_first()[i - 1] == reqs[i]);
    }
}

/// No growth while reserved capacity lasts: if the active chunk's free
/// space covers the run's aligned footprint (plus the padding that first
/// realigns the chunk), the run retires nothing and keeps the same chunk.
pub proof fn lemma_no_growth(m: ArenaModel, reqs: Seq<AllocReq>)
    requires
        arena_wf(m),
        spec_pad_len(chunk_len(m), ALIGN as int) + total_aligned(reqs) <= arena_remaining(m),
    ensures
        spec_alloc_seq(m, reqs).retired == m.retired,
        spec_alloc_seq(m, reqs).current.cap == m.current.cap,
    decreases reqs.len(),
{
    if reqs.len() > 0 {
        let bytes = reqs.first().bytes;
        let s = bytes.len() as int;
        let pad0 = spec_pad_len(chunk_len(m), ALIGN as int);
        let need = alloc_need(m, s);
        lemma_pad_len_aligns(chunk_len(m), ALIGN as int);
        lemma_pad_len_aligns(s, ALIGN as int);
        // The first request fits, so no chunk is retired for it.
        lemma_total_aligned_nonneg(reqs.drop_first());
        assert(aligned_size(s) <= total_aligned(reqs));
        assert(need <= arena_remaining(m));
        let m1 = spec_alloc(m, bytes, reqs.first().token);
        assert(spec_reserve(m, need) == m);
        assert(m1.retired == m.retired);
        assert(m1.current.cap == m.current.cap);
        // The new used length is the old aligned length plus the value,
        // so the next padding depends only on the value's size.
        assert(chunk_len(m1) == chunk_len(m) + pad0 + s);
        assert((chunk_len(m) + pad0) % (ALIGN as int) == 0);
        assert(chunk_len(m1) % (ALIGN as int) == s % (ALIGN as int)) by {
            vstd::arithmetic::div_mod::lemma_add_mod_noop(
                chunk_len(m) + pad0, s, ALIGN as int);
            vstd::arithmetic::div_mod::lemma_mod_twice(s, ALIGN as int);
        }
        assert(spec_pad_len(chunk_len(m1), ALIGN as int) == spec_pad_len(s, ALIGN as int));
        assert(arena_remaining(m1) == arena_remaining(m) - pad0 - s);
        lemma_alloc_wf(m, bytes, reqs.first().token);
        lemma_no_growth(m1, reqs.drop_first());
    }
}

/// No over-allocation after an explicit reservation: `reserve(n)` leaves
/// at least `n` free bytes, so a run of allocations whose aligned
/// footprint stays below `n` by at least one alignment unit triggers no
/// further growth event.
pub proof fn lemma_reserve_covers_allocations(m: ArenaModel, n: int, reqs: Seq<AllocReq>)
    requires
        arena_wf(m),
        total_aligned(reqs) + (ALIGN as int) <= n + 1,
    ensures
        spec_alloc_seq(spec_reserve(m, n), reqs).retired == spec_reserve(m, n).retired,
        spec_alloc_seq(spec_reserve(m, n), reqs).current.cap == spec_reserve(m, n).current.cap,
{
    let m1 = spec_reserve(m, n);
    lemma_reserve_wf(m, n);
    lemma_pad_len_aligns(chunk_len(m1), ALIGN as int);
    lemma_total_aligned_nonneg(reqs);
    lemma_no_growth(m1, reqs);
}

/// The aligned footprint of a run is never negative.
pub proof fn lemma_total_aligned_nonneg(reqs: Seq<AllocReq>)
    ensures
        total_aligned(reqs) >= 0,
    decreases reqs.len(),
{
    if reqs.len() > 0 {
        lemma_pad_len_aligns(reqs.first().bytes.len() as int, ALIGN as int);
        lemma_total_aligned_nonneg(reqs.drop_first());
    }
}

} // verus!
