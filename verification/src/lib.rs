//! A growable, untyped bulk-memory arena.
//!
//! The arena accepts byte representations of values, copies each into a
//! contiguous chunk it owns, and records a finalizer entry (the value's
//! address together with an opaque cleanup token) for every allocation.
//! Cleanup is deferred: tearing the arena down hands back every finalizer
//! entry exactly once, in registration order, and releases all chunk memory.
//!
//! Chunks are never moved or resized in place: when the active chunk runs
//! out of room, a fresh chunk is allocated and the old one is retired
//! untouched, so every address handed out stays valid until teardown.

mod align;
mod model;
mod arena;
mod laws;

pub use align::{pad_len, next_pow2, spec_pad_len, spec_npot, is_pow2};
pub use model::{
    ChunkModel, EntryModel, AllocReq, ArenaModel, ALIGN, chunk_len, arena_remaining, chunk_wf,
    chunk_of, addr_in_bounds, entry_in_bounds, arena_wf, value_at, grown_cap, spec_grow,
    spec_reserve, alloc_need, spec_alloc_entry, spec_alloc, spec_alloc_seq, spec_new,
    aligned_size, total_aligned, reserve_type_need, reserve_ok, alloc_ok,
};
pub use arena::{Arena, Handle, FinalizerEntry, INITIAL_SIZE, entry_model, entries_model};
pub use laws::{
    lemma_grow_preserves_entry, lemma_reserve_preserves_entry, lemma_alloc_preserves_entry,
    lemma_alloc_seq_entries_len, lemma_alloc_seq_wf, lemma_address_stability,
    lemma_finalization_order, lemma_no_growth, lemma_reserve_covers_allocations,
};
