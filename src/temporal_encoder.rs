use crate::memory_bank::{
    all_touched, context_positions, evicts_first, is_top_k, total_rule, touched_at, MemoryBank,
    MemoryConfig, MemoryEntry,
};
use crate::temporal_attention::{positional_distances, synthetic_distances, TemporalAttention};
use vstd::prelude::*;

verus! {

/// How many ticks back a forward pass looks for memory context.
pub const CONTEXT_WINDOW: usize = 10;

/// How many memories a forward pass without previous states recalls.
pub const RECALL_COUNT: usize = 5;

/// The temporal side of an encoder: the memory bank that every forward pass
/// writes its pooled result into, and the attention cutoff applied to what is
/// read back. `R` is the pooled representation.
pub struct TemporalEncoder<R> {
    memory_bank: MemoryBank<R>,
    temporal_attention: TemporalAttention,
}

impl<R> TemporalEncoder<R> {
    pub closed spec fn bank(&self) -> MemoryBank<R> {
        self.memory_bank
    }

    pub closed spec fn attention(&self) -> TemporalAttention {
        self.temporal_attention
    }

    pub open spec fn wf(&self) -> bool {
        self.bank().wf()
    }

    pub fn new(max_temporal_distance: usize, memory_config: MemoryConfig) -> (r: Self)
        ensures
            r.wf(),
            r.attention().max_temporal_distance == max_temporal_distance,
            r.bank().config() == memory_config,
            r.bank().entries().len() == 0,
            r.bank().now() == 0,
            r.bank().archive().len() == 0,
    {
        TemporalEncoder {
            memory_bank: MemoryBank::new(memory_config),
            temporal_attention: TemporalAttention::new(max_temporal_distance),
        }
    }

    pub fn memory_bank(&self) -> (r: &MemoryBank<R>)
        ensures
            *r == self.bank(),
    {
        &self.memory_bank
    }

    pub fn temporal_attention(&self) -> (r: TemporalAttention)
        ensures
            r == self.attention(),
    {
        self.temporal_attention
    }

    /// The memory context of a forward pass: the bank's temporal context
    /// within the fixed window, latest first, with the distances `1..=n`
    /// assigned by list position.
    pub fn temporal_context(&self, query: &R) -> (r: (Vec<R>, Vec<usize>)) where R: Clone
        requires
            self.wf(),
        ensures
            r.0@.len() == context_positions(
                self.bank().entries(),
                0,
                self.bank().now() as int,
                CONTEXT_WINDOW as int,
                self.bank().config().retention_threshold,
            ).len(),
            forall|t: int| 0 <= t < r.0@.len() ==> cloned(
                self.bank().entries()[context_positions(
                    self.bank().entries(),
                    0,
                    self.bank().now() as int,
                    CONTEXT_WINDOW as int,
                    self.bank().config().retention_threshold,
                )[t] as int].representation,
                #[trigger] r.0@[t],
            ),
            r.1@ == positional_distances(r.0@.len()),
    {
        let context = self.memory_bank.get_temporal_context(query, CONTEXT_WINDOW);
        let distances = synthetic_distances(context.len());
        (context, distances)
    }

    /// The memories recalled when no previous states are given: the
    /// `RECALL_COUNT` most similar, as `MemoryBank::retrieve` chooses and
    /// touches them, with the distances `1..=n` assigned by list position.
    pub fn recall<F: Fn(u64, usize, usize) -> u64>(
        &mut self,
        similarities: &Vec<u64>,
        refresh: &F,
    ) -> (r: (Vec<R>, Vec<usize>)) where R: Clone
        requires
            old(self).wf(),
            old(self).bank().counts_below_max(),
            total_rule(*refresh),
            similarities@.len() == old(self).bank().entries().len(),
        ensures
            final(self).wf(),
            final(self).attention() == old(self).attention(),
            final(self).bank().now() == old(self).bank().now(),
            final(self).bank().config() == old(self).bank().config(),
            final(self).bank().archive() == old(self).bank().archive(),
            exists|sel: Seq<usize>|
                {
                    &&& is_top_k(similarities@, RECALL_COUNT as nat, sel)
                    &&& touched_at(
                        *refresh,
                        old(self).bank().now() as int,
                        old(self).bank().entries(),
                        sel,
                        final(self).bank().entries(),
                    )
                    &&& r.0@.len() == sel.len()
                    &&& forall|t: int| 0 <= t < sel.len()
                        ==> cloned(old(self).bank().entries()[#[trigger] sel[t] as int].representation, r.0@[t])
                },
            r.1@ == positional_distances(r.0@.len()),
    {
        let memories = self.memory_bank.retrieve(similarities, RECALL_COUNT, refresh);
        let distances = synthetic_distances(memories.len());
        (memories, distances)
    }

    /// Writes the pooled result of a forward pass into the memory bank.
    pub fn store_in_memory<F: Fn(u64, usize, usize) -> u64>(&mut self, pooled: R, refresh: &F)
        requires
            old(self).wf(),
            old(self).bank().counts_below_max(),
            old(self).bank().now() < usize::MAX,
            total_rule(*refresh),
        ensures
            final(self).wf(),
            final(self).attention() == old(self).attention(),
            final(self).bank().now() == old(self).bank().now() + 1,
            final(self).bank().config() == old(self).bank().config(),
            final(self).bank().archive() == old(self).bank().archive(),
            old(self).bank().arrived(pooled).len() <= old(self).bank().config().max_memory_size
                ==> final(self).bank().entries() == old(self).bank().arrived(pooled),
            old(self).bank().arrived(pooled).len() > old(self).bank().config().max_memory_size
                ==> exists|refreshed: Seq<MemoryEntry<R>>, m: int|
                all_touched(*refresh, final(self).bank().now() as int, old(self).bank().arrived(pooled), refreshed)
                && evicts_first(refreshed, m) && final(self).bank().entries() == refreshed.remove(m),
    {
        self.memory_bank.store(pooled, refresh);
    }

    pub fn clear_memory(&mut self)
        ensures
            final(self).wf(),
            final(self).attention() == old(self).attention(),
            final(self).bank().entries().len() == 0,
            final(self).bank().archive().len() == 0,
            final(self).bank().now() == 0,
            final(self).bank().config() == old(self).bank().config(),
    {
        self.memory_bank.clear();
    }

    pub fn memory_size(&self) -> (r: usize)
        ensures
            r == self.bank().entries().len(),
    {
        self.memory_bank.size()
    }
}

} // verus!
