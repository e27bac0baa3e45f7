//! The mathematical model of the arena.
//!
//! Every executable operation is specified as a pure transition on
//! [`ArenaModel`]: a current chunk, an ordered sequence of retired chunks
//! (oldest first), and an ordered registry of finalizer entries
//! (registration order, oldest first). The contracts of the executable
//! arena say that its state follows these transitions exactly.

use vstd::prelude::*;
use crate::align::{spec_pad_len, spec_npot, is_pow2, lemma_npot_bounds, lemma_pow2_double,
    lemma_pad_len_aligns};

verus! {

/// The coarse alignment applied to every allocation: the pointer width of
/// the targets this crate supports. Values needing stricter alignment are
/// unsupported.
pub const ALIGN: usize = 8;

/// A chunk: a contiguous byte buffer with a fixed capacity. The active
/// chunk grows monotonically; a retired chunk is never written again.
#[verifier::ext_equal]
pub ghost struct ChunkModel {
    pub data: Seq<u8>,
    pub cap: int,
}

/// A finalizer entry: the address of an allocated value (chunk index and
/// byte offset), its size, and an opaque cleanup token chosen by the
/// caller. Chunk index `retired.len()` denotes the active chunk; when that
/// chunk is retired it keeps the same index, so addresses never change.
#[verifier::ext_equal]
pub ghost struct EntryModel {
    pub chunk: int,
    pub offset: int,
    pub size: int,
    pub token: u64,
}

/// One allocation request: the value's byte representation and its token.
#[verifier::ext_equal]
pub ghost struct AllocReq {
    pub bytes: Seq<u8>,
    pub token: u64,
}

/// The whole arena state.
#[verifier::ext_equal]
pub ghost struct ArenaModel {
    pub current: ChunkModel,
    pub retired: Seq<ChunkModel>,
    pub entries: Seq<EntryModel>,
}

/// Used length of the active chunk.
pub open spec fn chunk_len(m: ArenaModel) -> int {
    m.current.data.len() as int
}

/// Unused capacity of the active chunk.
pub open spec fn arena_remaining(m: ArenaModel) -> int {
    m.current.cap - m.current.data.len()
}

pub open spec fn chunk_wf(c: ChunkModel) -> bool {
    &&& c.data.len() <= c.cap
    &&& is_pow2(c.cap)
}

/// The chunk an entry's chunk index denotes: a retired chunk, or the
/// active chunk for index `retired.len()`.
pub open spec fn chunk_of(m: ArenaModel, id: int) -> ChunkModel {
    if 0 <= id < m.retired.len() {
        m.retired[id]
    } else {
        m.current
    }
}

/// A (chunk, offset, size) address range lies inside the arena's storage.
pub open spec fn addr_in_bounds(m: ArenaModel, chunk: int, offset: int, size: int) -> bool {
    &&& 0 <= chunk <= m.retired.len()
    &&& 0 <= offset
    &&& 0 <= size
    &&& offset + size <= chunk_of(m, chunk).data.len()
}

pub open spec fn entry_in_bounds(m: ArenaModel, e: EntryModel) -> bool {
    &&& addr_in_bounds(m, e.chunk, e.offset, e.size)
    &&& e.offset % (ALIGN as int) == 0
}

pub open spec fn arena_wf(m: ArenaModel) -> bool {
    &&& chunk_wf(m.current)
    &&& forall|i: int| 0 <= i < m.retired.len() ==> chunk_wf(#[trigger] m.retired[i])
    &&& forall|i: int| 0 <= i < m.entries.len() ==> entry_in_bounds(m, #[trigger] m.entries[i])
}

/// The bytes of the `i`-th allocated value.
pub open spec fn value_at(m: ArenaModel, i: int) -> Seq<u8>
    recommends
        0 <= i < m.entries.len(),
{
    let e = m.entries[i];
    chunk_of(m, e.chunk).data.subrange(e.offset, e.offset + e.size)
}

pub open spec fn zero_bytes(n: int) -> Seq<u8> {
    Seq::new(n as nat, |i: int| 0u8)
}

/// Capacity of a replacement chunk: geometric doubling, or the next power
/// of two of the request, whichever is larger.
pub open spec fn grown_cap(cap: int, need: int) -> int {
    if 2 * cap >= spec_npot(need) {
        2 * cap
    } else {
        spec_npot(need)
    }
}

/// Retire the active chunk untouched and start a fresh, larger one.
pub open spec fn spec_grow(m: ArenaModel, need: int) -> ArenaModel {
    ArenaModel {
        current: ChunkModel { data: Seq::empty(), cap: grown_cap(m.current.cap, need) },
        retired: m.retired.push(m.current),
        entries: m.entries,
    }
}

/// Ensure at least `n` bytes of remaining capacity, growing only if the
/// active chunk cannot hold them.
pub open spec fn spec_reserve(m: ArenaModel, n: int) -> ArenaModel {
    if arena_remaining(m) >= n {
        m
    } else {
        spec_grow(m, n)
    }
}

/// Bytes an allocation of `size` needs in the active chunk as it stands:
/// alignment padding plus the value itself.
pub open spec fn alloc_need(m: ArenaModel, size: int) -> int {
    spec_pad_len(chunk_len(m), ALIGN as int) + size
}

/// The finalizer entry an allocation registers.
pub open spec fn spec_alloc_entry(m: ArenaModel, size: int, token: u64) -> EntryModel {
    let m1 = spec_reserve(m, alloc_need(m, size));
    let pad = spec_pad_len(chunk_len(m1), ALIGN as int);
    EntryModel {
        chunk: m1.retired.len() as int,
        offset: chunk_len(m1) + pad,
        size: size,
        token: token,
    }
}

/// Allocate: make room (growing if needed), pad the active chunk up to the
/// coarse alignment, append the value's bytes, and register its entry.
pub open spec fn spec_alloc(m: ArenaModel, bytes: Seq<u8>, token: u64) -> ArenaModel {
    let m1 = spec_reserve(m, alloc_need(m, bytes.len() as int));
    let pad = spec_pad_len(chunk_len(m1), ALIGN as int);
    ArenaModel {
        current: ChunkModel {
            data: m1.current.data + zero_bytes(pad) + bytes,
            cap: m1.current.cap,
        },
        retired: m1.retired,
        entries: m1.entries.push(spec_alloc_entry(m, bytes.len() as int, token)),
    }
}

/// A whole run of allocations, oldest first.
pub open spec fn spec_alloc_seq(m: ArenaModel, reqs: Seq<AllocReq>) -> ArenaModel
    decreases reqs.len(),
{
    if reqs.len() == 0 {
        m
    } else {
        spec_alloc_seq(spec_alloc(m, reqs.first().bytes, reqs.first().token), reqs.drop_first())
    }
}

/// A value's size rounded up to the coarse alignment: the room it occupies
/// when it starts on an aligned offset.
pub open spec fn aligned_size(size: int) -> int {
    size + spec_pad_len(size, ALIGN as int)
}

/// Total aligned footprint of a run of allocation requests.
pub open spec fn total_aligned(reqs: Seq<AllocReq>) -> int
    decreases reqs.len(),
{
    if reqs.len() == 0 {
        0
    } else {
        aligned_size(reqs.first().bytes.len() as int) + total_aligned(reqs.drop_first())
    }
}

/// A freshly created arena: one empty active chunk whose capacity is the
/// next power of two of the requested size, nothing retired, nothing
/// registered.
pub open spec fn spec_new(capacity: int) -> ArenaModel {
    ArenaModel {
        current: ChunkModel { data: Seq::empty(), cap: spec_npot(capacity) },
        retired: Seq::empty(),
        entries: Seq::empty(),
    }
}

/// Bytes `reserve_type` asks for: padding to realign the active chunk,
/// then `count` aligned element slots.
pub open spec fn reserve_type_need(m: ArenaModel, size: int, count: int) -> int {
    spec_pad_len(chunk_len(m), ALIGN as int) + aligned_size(size) * count
}

/// `reserve` cannot panic on this state: growth arithmetic stays
/// representable. Overflow here is the fatal configuration error of asking
/// for more address space than exists.
pub open spec fn reserve_ok(m: ArenaModel, n: int) -> bool {
    arena_remaining(m) < n ==> {
        &&& 2 * m.current.cap <= usize::MAX
        &&& spec_npot(n) <= usize::MAX
    }
}

/// `allocate` cannot panic on this state.
pub open spec fn alloc_ok(m: ArenaModel, size: int) -> bool {
    &&& alloc_need(m, size) <= usize::MAX
    &&& reserve_ok(m, alloc_need(m, size))
}

pub proof fn lemma_new_wf(capacity: int)
    ensures
        arena_wf(spec_new(capacity)),
        arena_remaining(spec_new(capacity)) == spec_npot(capacity),
{
    lemma_npot_bounds(capacity);
}

pub proof fn lemma_grow_wf(m: ArenaModel, need: int)
    requires
        arena_wf(m),
    ensures
        arena_wf(spec_grow(m, need)),
        arena_remaining(spec_grow(m, need)) >= need,
        arena_remaining(spec_grow(m, need)) >= 2 * m.current.cap,
{
    let g = spec_grow(m, need);
    lemma_npot_bounds(need);
    lemma_pow2_double(m.current.cap);
    assert(chunk_wf(g.current));
    assert forall|i: int| 0 <= i < g.retired.len() implies chunk_wf(#[trigger] g.retired[i]) by {
        if i < m.retired.len() {
            assert(g.retired[i] == m.retired[i]);
        } else {
            assert(g.retired[i] == m.current);
        }
    }
    assert forall|i: int| 0 <= i < g.entries.len() implies entry_in_bounds(g, #[trigger] g.entries[i]) by {
        let e = m.entries[i];
        assert(entry_in_bounds(m, e));
        assert(chunk_of(g, e.chunk) == chunk_of(m, e.chunk));
    }
}

pub proof fn lemma_reserve_wf(m: ArenaModel, n: int)
    requires
        arena_wf(m),
    ensures
        arena_wf(spec_reserve(m, n)),
        arena_remaining(spec_reserve(m, n)) >= n,
        spec_reserve(m, n).entries == m.entries,
{
    if arena_remaining(m) < n {
        lemma_grow_wf(m, n);
    }
}

pub proof fn lemma_alloc_wf(m: ArenaModel, bytes: Seq<u8>, token: u64)
    requires
        arena_wf(m),
    ensures
        arena_wf(spec_alloc(m, bytes, token)),
        spec_alloc(m, bytes, token).entries == m.entries.push(
            spec_alloc_entry(m, bytes.len() as int, token)),
        entry_in_bounds(spec_alloc(m, bytes, token), spec_alloc_entry(m, bytes.len() as int, token)),
{
    let size = bytes.len() as int;
    let need = alloc_need(m, size);
    let m1 = spec_reserve(m, need);
    let pad = spec_pad_len(chunk_len(m1), ALIGN as int);
    let a = spec_alloc(m, bytes, token);
    lemma_reserve_wf(m, need);
    lemma_pad_len_aligns(chunk_len(m), ALIGN as int);
    lemma_pad_len_aligns(chunk_len(m1), ALIGN as int);
    // Padding recomputed after growth never exceeds the padding that was
    // part of the reserved request, so the value still fits.
    assert(pad <= spec_pad_len(chunk_len(m), ALIGN as int) || chunk_len(m1) == 0);
    assert(a.current.data.len() == chunk_len(m1) + pad + size);
    assert(a.current.data.len() <= a.current.cap);
    assert(chunk_wf(a.current));
    assert forall|i: int| 0 <= i < a.retired.len() implies chunk_wf(#[trigger] a.retired[i]) by {
        assert(a.retired[i] == m1.retired[i]);
    }
    let fresh = spec_alloc_entry(m, size, token);
    assert(entry_in_bounds(a, fresh)) by {
        assert(chunk_of(a, fresh.chunk) == a.current);
    }
    assert forall|i: int| 0 <= i < a.entries.len() implies entry_in_bounds(a, #[trigger] a.entries[i]) by {
        if i < m1.entries.len() {
            let e = m1.entries[i];
            assert(entry_in_bounds(m1, e));
            assert(a.entries[i] == e);
            if e.chunk < m1.retired.len() {
                assert(chunk_of(a, e.chunk) == chunk_of(m1, e.chunk));
            } else {
                assert(chunk_of(m1, e.chunk) == m1.current);
                assert(chunk_of(a, e.chunk) == a.current);
                assert(e.offset + e.size <= a.current.data.len());
            }
        } else {
            assert(a.entries[i] == fresh);
        }
    }
}

} // verus!
