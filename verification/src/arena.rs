//! The executable arena: chunk growth and retirement, aligned allocation
//! of byte representations, the finalizer registry, and teardown.

use vstd::prelude::*;
use crate::align::{pad_len, next_pow2, spec_npot, lemma_npot_bounds};
use crate::model::{ArenaModel, ChunkModel, EntryModel, ALIGN, arena_wf, arena_remaining,
    chunk_of, spec_new, spec_grow, spec_reserve, spec_alloc, spec_alloc_entry,
    alloc_need, alloc_ok, reserve_ok, reserve_type_need, aligned_size, addr_in_bounds,
    value_at, zero_bytes, lemma_new_wf, lemma_reserve_wf, lemma_alloc_wf};

verus! {

/// Default capacity of a freshly created arena's first chunk.
pub const INITIAL_SIZE: usize = 1024;

/// The address of an allocated value: the index of the chunk that holds
/// it (retired chunks keep their index; `growth_events()` is the index of
/// the active chunk), the byte offset of its first byte, and its size.
/// Valid until the arena is destroyed.
#[derive(Clone, Copy, Debug)]
pub struct Handle {
    pub chunk: usize,
    pub offset: usize,
    pub size: usize,
}

/// A registered finalizer: the address of an allocated value together
/// with the opaque cleanup token its allocation supplied. [`Arena::destroy`]
/// hands these back in registration order, exactly once each, so the
/// caller can run each value's cleanup.
#[derive(Clone, Copy, Debug)]
pub struct FinalizerEntry {
    pub chunk: usize,
    pub offset: usize,
    pub size: usize,
    pub token: u64,
}

/// The model of an executable finalizer entry.
pub open spec fn entry_model(e: FinalizerEntry) -> EntryModel {
    EntryModel {
        chunk: e.chunk as int,
        offset: e.offset as int,
        size: e.size as int,
        token: e.token,
    }
}

/// The model of a sequence of executable finalizer entries.
pub open spec fn entries_model(s: Seq<FinalizerEntry>) -> Seq<EntryModel> {
    s.map_values(|e: FinalizerEntry| entry_model(e))
}

struct Chunk {
    data: Vec<u8>,
    cap: usize,
}

impl View for Chunk {
    type V = ChunkModel;

    closed spec fn view(&self) -> ChunkModel {
        ChunkModel { data: self.data@, cap: self.cap as int }
    }
}

struct ChunkList {
    current_chunk: Chunk,
    chunks: Vec<Chunk>,
    drops: Vec<FinalizerEntry>,
}

spec fn chunks_model(s: Seq<Chunk>) -> Seq<ChunkModel> {
    s.map_values(|c: Chunk| c@)
}

impl View for ChunkList {
    type V = ArenaModel;

    closed spec fn view(&self) -> ArenaModel {
        ArenaModel {
            current: self.current_chunk@,
            retired: chunks_model(self.chunks@),
            entries: entries_model(self.drops@),
        }
    }
}

/// An untyped, growable bulk-memory arena.
///
/// Allocation copies a value's byte representation into the active chunk
/// at the next offset aligned to [`ALIGN`], growing by chunk replacement
/// when the active chunk is full. Addresses are stable: a chunk is never
/// moved or resized in place, so every [`Handle`] stays valid until
/// [`Arena::destroy`]. Each allocation registers a [`FinalizerEntry`];
/// destruction returns them all, in registration order.
///
/// Mutating operations take the arena exclusively (`&mut self` or by
/// value), so reentrant mutation is rejected at compile time rather than
/// detected at run time.
pub struct Arena {
    inner: ChunkList,
}

impl View for Arena {
    type V = ArenaModel;

    closed spec fn view(&self) -> ArenaModel {
        self.inner@
    }
}

impl ChunkList {
    /// Ensure at least `capacity` bytes remain in the active chunk. If it
    /// cannot hold them, retire it untouched and start a fresh chunk of
    /// `max(2 * current capacity, next_pow2(capacity))` bytes.
    fn reserve(&mut self, capacity: usize)
        requires
            arena_wf(old(self)@),
            reserve_ok(old(self)@, capacity as int),
        ensures
            final(self)@ == spec_reserve(old(self)@, capacity as int),
            arena_wf(final(self)@),
            arena_remaining(final(self)@) >= capacity,
    {
        proof {
            lemma_reserve_wf(old(self)@, capacity as int);
        }
        let remaining = self.current_chunk.cap - self.current_chunk.data.len();
        if remaining < capacity {
            let doubled = self.current_chunk.cap * 2;
            let pot = next_pow2(capacity);
            let next_size = if doubled >= pot {
                doubled
            } else {
                pot
            };
            let mut fresh = Chunk { data: Vec::new(), cap: next_size };
            core::mem::swap(&mut self.current_chunk, &mut fresh);
            self.chunks.push(fresh);
            proof {
                let g = spec_grow(old(self)@, capacity as int);
                assert(self@.current =~= g.current);
                assert(self@.retired =~= g.retired);
                assert(self@.entries =~= g.entries);
                assert(self@ =~= g);
            }
        } else {
            proof {
                assert(self@ =~= spec_reserve(old(self)@, capacity as int));
            }
        }
    }

    /// Reserve room for `count` elements of the given size, each occupying
    /// an aligned slot, plus the padding needed to realign the active
    /// chunk first. `element_align` may not exceed the coarse alignment:
    /// stricter alignment is unsupported.
    #[allow(unused_variables)]
    fn reserve_type(&mut self, element_size: usize, element_align: usize, count: usize)
        requires
            arena_wf(old(self)@),
            0 < element_align <= ALIGN,
            aligned_size(element_size as int) <= usize::MAX,
            reserve_type_need(old(self)@, element_size as int, count as int) <= usize::MAX,
            reserve_ok(old(self)@, reserve_type_need(old(self)@, element_size as int, count as int)),
        ensures
            final(self)@ == spec_reserve(
                old(self)@,
                reserve_type_need(old(self)@, element_size as int, count as int),
            ),
            arena_wf(final(self)@),
            arena_remaining(final(self)@) >= reserve_type_need(
                old(self)@, element_size as int, count as int),
    {
        let initial_padding = pad_len(self.current_chunk.data.len(), ALIGN);
        let size_padded = element_size + pad_len(element_size, ALIGN);
        proof {
            let need = reserve_type_need(old(self)@, element_size as int, count as int);
            assert(size_padded * count <= need - initial_padding) by (nonlinear_arith)
                requires
                    size_padded == aligned_size(element_size as int),
                    count >= 0,
                    need == initial_padding + aligned_size(element_size as int) * count,
            ;
        }
        self.reserve(initial_padding + size_padded * count);
    }
}

impl Arena {
    /// Creates a new, empty arena with the default initial capacity.
    pub fn new() -> (a: Arena)
        ensures
            a@ == spec_new(INITIAL_SIZE as int),
            arena_wf(a@),
            a@.entries.len() == 0,
            a@.retired.len() == 0,
    {
        proof {
            lemma_npot_bounds(INITIAL_SIZE as int);
        }
        Self::with_capacity(INITIAL_SIZE)
    }

    /// Creates a new, empty arena whose first chunk holds at least
    /// `capacity` bytes (rounded up to a power of two).
    ///
    /// Asking for a capacity whose power-of-two rounding exceeds the
    /// address space is a fatal configuration error, excluded here.
    pub fn with_capacity(capacity: usize) -> (a: Arena)
        requires
            spec_npot(capacity as int) <= usize::MAX,
        ensures
            a@ == spec_new(capacity as int),
            arena_wf(a@),
            a@.entries.len() == 0,
            a@.retired.len() == 0,
            arena_remaining(a@) >= capacity,
    {
        proof {
            lemma_new_wf(capacity as int);
        }
        let cap = next_pow2(capacity);
        let a = Arena {
            inner: ChunkList {
                current_chunk: Chunk { data: Vec::new(), cap: cap },
                chunks: Vec::new(),
                drops: Vec::new(),
            },
        };
        proof {
            assert(a@.retired =~= spec_new(capacity as int).retired);
            assert(a@.entries =~= spec_new(capacity as int).entries);
            assert(a@.current =~= spec_new(capacity as int).current);
            assert(a@ =~= spec_new(capacity as int));
        }
        a
    }

    /// Moves a value's byte representation into the arena, allocating
    /// space for it as needed, and registers a finalizer entry carrying
    /// `token`. Returns the value's address, which stays valid until the
    /// arena is destroyed.
    ///
    /// The start offset is aligned to [`ALIGN`]; the chunk may be grown
    /// (retiring the active chunk untouched) if the value does not fit.
    pub fn allocate(&mut self, bytes: Vec<u8>, token: u64) -> (h: Handle)
        requires
            arena_wf(old(self)@),
            alloc_ok(old(self)@, bytes@.len() as int),
        ensures
            final(self)@ == spec_alloc(old(self)@, bytes@, token),
            arena_wf(final(self)@),
            final(self)@.entries.len() == old(self)@.entries.len() + 1,
            final(self)@.entries.last() == spec_alloc_entry(old(self)@, bytes@.len() as int, token),
            h.chunk as int == final(self)@.entries.last().chunk,
            h.offset as int == final(self)@.entries.last().offset,
            h.size == bytes@.len(),
            h.offset as int % (ALIGN as int) == 0,
            value_at(final(self)@, old(self)@.entries.len() as int) == bytes@,
    {
        let ghost m0 = old(self)@;
        let size = bytes.len();
        let padding = pad_len(self.inner.current_chunk.data.len(), ALIGN);
        let remaining = self.inner.current_chunk.cap - self.inner.current_chunk.data.len();
        if remaining < padding + size {
            self.inner.reserve(padding + size);
        }
        let ghost m1 = spec_reserve(m0, alloc_need(m0, size as int));
        proof {
            lemma_reserve_wf(m0, alloc_need(m0, size as int));
            assert(self.inner@ =~= m1);
        }
        let padding = pad_len(self.inner.current_chunk.data.len(), ALIGN);
        let mut i: usize = 0;
        while i < padding
            invariant
                i <= padding,
                self.inner@.current.cap == m1.current.cap,
                self.inner@.retired == m1.retired,
                self.inner@.entries == m1.entries,
                self.inner@.current.data =~= m1.current.data + zero_bytes(i as int),
            decreases padding - i,
        {
            self.inner.current_chunk.data.push(0u8);
            i = i + 1;
            proof {
                assert(self.inner@.current.data =~= m1.current.data + zero_bytes(i as int));
            }
        }
        let index = self.inner.current_chunk.data.len();
        let ghost base = m1.current.data + zero_bytes(padding as int);
        let mut j: usize = 0;
        while j < size
            invariant
                j <= size,
                size == bytes@.len(),
                self.inner@.current.cap == m1.current.cap,
                self.inner@.retired == m1.retired,
                self.inner@.entries == m1.entries,
                self.inner@.current.data =~= base + bytes@.subrange(0, j as int),
            decreases size - j,
        {
            let b = bytes[j];
            self.inner.current_chunk.data.push(b);
            j = j + 1;
            proof {
                assert(self.inner@.current.data =~= base + bytes@.subrange(0, j as int));
            }
        }
        let h = Handle { chunk: self.inner.chunks.len(), offset: index, size: size };
        self.inner.drops.push(FinalizerEntry {
            chunk: h.chunk,
            offset: index,
            size: size,
            token: token,
        });
        proof {
            lemma_alloc_wf(m0, bytes@, token);
            let a = spec_alloc(m0, bytes@, token);
            assert(bytes@.subrange(0, size as int) =~= bytes@);
            assert(self.inner@.current.data =~= a.current.data);
            assert(self.inner@.current =~= a.current);
            assert(self.inner@.retired =~= a.retired);
            assert(entry_model(self.inner.drops@.last())
                == spec_alloc_entry(m0, bytes@.len() as int, token));
            assert(self.inner@.entries =~= a.entries);
            assert(self.inner@ =~= a);
            assert(value_at(self@, m0.entries.len() as int) =~= bytes@);
        }
        h
    }

    /// Reserves at least `capacity` bytes in the arena for future
    /// allocations, retiring the active chunk only if it cannot hold them.
    pub fn reserve(&mut self, capacity: usize)
        requires
            arena_wf(old(self)@),
            reserve_ok(old(self)@, capacity as int),
        ensures
            final(self)@ == spec_reserve(old(self)@, capacity as int),
            arena_wf(final(self)@),
            arena_remaining(final(self)@) >= capacity,
    {
        self.inner.reserve(capacity)
    }

    /// Reserves enough space for `count` aligned slots of `element_size`
    /// bytes each. `element_align` may not exceed the coarse alignment.
    pub fn reserve_type(&mut self, element_size: usize, element_align: usize, count: usize)
        requires
            arena_wf(old(self)@),
            0 < element_align <= ALIGN,
            aligned_size(element_size as int) <= usize::MAX,
            reserve_type_need(old(self)@, element_size as int, count as int) <= usize::MAX,
            reserve_ok(old(self)@, reserve_type_need(old(self)@, element_size as int, count as int)),
        ensures
            final(self)@ == spec_reserve(
                old(self)@,
                reserve_type_need(old(self)@, element_size as int, count as int),
            ),
            arena_wf(final(self)@),
            arena_remaining(final(self)@) >= reserve_type_need(
                old(self)@, element_size as int, count as int),
    {
        self.inner.reserve_type(element_size, element_align, count)
    }

    /// Reads back the bytes stored at an address the arena handed out.
    pub fn read(&self, h: &Handle) -> (out: Vec<u8>)
        requires
            arena_wf(self@),
            addr_in_bounds(self@, h.chunk as int, h.offset as int, h.size as int),
        ensures
            out@ == chunk_of(self@, h.chunk as int).data.subrange(
                h.offset as int, h.offset + h.size),
    {
        let c: &Chunk = if h.chunk < self.inner.chunks.len() {
            &self.inner.chunks[h.chunk]
        } else {
            &self.inner.current_chunk
        };
        proof {
            assert(c@ == chunk_of(self@, h.chunk as int));
        }
        let limit = c.data.len();
        let mut out: Vec<u8> = Vec::new();
        let mut k: usize = 0;
        while k < h.size
            invariant
                k <= h.size,
                h.offset + h.size <= limit,
                limit == c.data@.len(),
                c@ == chunk_of(self@, h.chunk as int),
                out@ =~= c.data@.subrange(h.offset as int, h.offset + k),
            decreases h.size - k,
        {
            let b = c.data[h.offset + k];
            out.push(b);
            k = k + 1;
            proof {
                assert(out@ =~= c.data@.subrange(h.offset as int, h.offset + k));
            }
        }
        out
    }

    /// Tears the arena down: consumes it, releases every chunk (active
    /// and retired), and returns the finalizer registry — every entry
    /// registered by an allocation, exactly once each, in registration
    /// order, oldest first. The caller runs each entry's cleanup in the
    /// order returned.
    ///
    /// Cleanup order is strictly oldest-allocated first, so a cleanup
    /// that reads an earlier-allocated value observes it after its own
    /// cleanup already ran; the arena performs no detection of such
    /// cross-references, and callers must not create them.
    pub fn destroy(self) -> (fins: Vec<FinalizerEntry>)
        ensures
            entries_model(fins@) == self@.entries,
            fins@.len() == self@.entries.len(),
    {
        let Arena { inner } = self;
        let ChunkList { current_chunk: _, chunks: _, drops } = inner;
        drops
    }

    /// How many growth events have happened: the number of retired
    /// chunks, which is also the index of the active chunk.
    pub fn growth_events(&self) -> (n: usize)
        ensures
            n == self@.retired.len(),
    {
        self.inner.chunks.len()
    }

    /// How many values have been allocated (= finalizer entries registered).
    pub fn allocations(&self) -> (n: usize)
        ensures
            n == self@.entries.len(),
    {
        self.inner.drops.len()
    }

    /// Capacity of the active chunk in bytes.
    pub fn capacity(&self) -> (n: usize)
        ensures
            n == self@.current.cap,
    {
        self.inner.current_chunk.cap
    }

    /// Used length of the active chunk in bytes.
    pub fn used(&self) -> (n: usize)
        ensures
            n == self@.current.data.len(),
    {
        self.inner.current_chunk.data.len()
    }
}

} // verus!
