use vstd::prelude::*;

verus! {

/// Fixed tunables of a memory bank.
///
/// Importance values are order keys on a scale the caller chooses: the bank
/// only compares them, and leaves the arithmetic of decay and access boost to
/// the refresh rule handed to the operations that update importance.
#[derive(Clone, Copy, Debug, PartialEq, Eq, Structural)]
pub struct MemoryConfig {
    /// Capacity bound on live entries.
    pub max_memory_size: usize,
    /// Importance of a freshly stored entry.
    pub initial_importance: u64,
    /// An entry belongs to the temporal context only with importance above this.
    pub retention_threshold: u64,
    /// Number of oldest entries folded into one summary by a compression.
    pub compression_batch: usize,
}

/// One stored pooled representation with its bookkeeping.
#[derive(Clone, Debug)]
pub struct MemoryEntry<R> {
    pub representation: R,
    /// Logical time of insertion.
    pub timestamp: usize,
    /// Current importance, as an order key.
    pub importance: u64,
    pub access_count: usize,
}

/// `after` is `before` with its importance refreshed by `refresh` at time `now`
/// and its access count raised by one.
pub open spec fn touched<R, F: Fn(u64, usize, usize) -> u64>(
    refresh: F,
    now: int,
    before: MemoryEntry<R>,
    after: MemoryEntry<R>,
) -> bool {
    &&& after.representation == before.representation
    &&& after.timestamp == before.timestamp
    &&& after.access_count == before.access_count + 1
    &&& call_ensures(
        refresh,
        (before.importance, (now - before.timestamp) as usize, before.access_count),
        after.importance,
    )
}

/// A refresh rule that accepts every input.
pub open spec fn total_rule<F: Fn(u64, usize, usize) -> u64>(refresh: F) -> bool {
    forall|i: u64, a: usize, c: usize| call_requires(refresh, (i, a, c))
}

impl<R> MemoryEntry<R> {
    pub fn new(representation: R, timestamp: usize, initial_importance: u64) -> (r: Self)
        ensures
            r.representation == representation,
            r.timestamp == timestamp,
            r.importance == initial_importance,
            r.access_count == 0,
    {
        MemoryEntry { representation, timestamp, importance: initial_importance, access_count: 0 }
    }

    /// Refreshes the importance at `current_timestamp` from the entry's age and
    /// access count, then counts one more access.
    pub fn update_importance<F: Fn(u64, usize, usize) -> u64>(
        &mut self,
        refresh: &F,
        current_timestamp: usize,
    )
        requires
            total_rule(*refresh),
            old(self).timestamp <= current_timestamp,
            old(self).access_count < usize::MAX,
        ensures
            touched(*refresh, current_timestamp as int, *old(self), *final(self)),
    {
        let age = current_timestamp - self.timestamp;
        self.importance = refresh(self.importance, age, self.access_count);
        self.access_count = self.access_count + 1;
    }
}

/// `after` is `before` with every entry touched at time `now`.
pub open spec fn all_touched<R, F: Fn(u64, usize, usize) -> u64>(
    refresh: F,
    now: int,
    before: Seq<MemoryEntry<R>>,
    after: Seq<MemoryEntry<R>>,
) -> bool {
    &&& after.len() == before.len()
    &&& forall|i: int| 0 <= i < before.len() ==> touched(refresh, now, before[i], #[trigger] after[i])
}

/// Entry `m` is the one eviction removes: it has the lowest importance, and
/// among entries of equal importance the lowest position.
pub open spec fn evicts_first<R>(s: Seq<MemoryEntry<R>>, m: int) -> bool {
    &&& 0 <= m < s.len()
    &&& forall|j: int| 0 <= j < m ==> s[m].importance < #[trigger] s[j].importance
    &&& forall|j: int| m < j < s.len() ==> s[m].importance <= #[trigger] s[j].importance
}

/// Position of the entry that eviction removes first.
pub fn lowest_importance<R>(entries: &Vec<MemoryEntry<R>>) -> (m: usize)
    requires
        entries@.len() > 0,
    ensures
        evicts_first(entries@, m as int),
{
    let n = entries.len();
    let mut m: usize = 0;
    let mut i: usize = 1;
    while i < n
        invariant
            n == entries@.len(),
            0 <= m < i <= n,
            forall|j: int| 0 <= j < m ==> entries@[m as int].importance < #[trigger] entries@[j].importance,
            forall|j: int| m < j < i ==> entries@[m as int].importance <= #[trigger] entries@[j].importance,
        decreases n - i,
    {
        if entries[i].importance < entries[m].importance {
            m = i;
        }
        i = i + 1;
    }
    m
}

/// Under similarity scores `sims`, position `i` ranks ahead of position `j`:
/// a higher score, or an equal score and an earlier position.
pub open spec fn ranks_before(sims: Seq<u64>, i: int, j: int) -> bool {
    sims[i] > sims[j] || (sims[i] == sims[j] && i < j)
}

/// `sel` lists the `k` best-ranked positions of `sims` (all of them when
/// there are fewer), best first.
pub open spec fn is_top_k(sims: Seq<u64>, k: nat, sel: Seq<usize>) -> bool {
    &&& sel.len() == (if k < sims.len() { k } else { sims.len() })
    &&& forall|t: int| 0 <= t < sel.len() ==> #[trigger] sel[t] < sims.len()
    &&& forall|a: int, b: int| 0 <= a < b < sel.len()
        ==> ranks_before(sims, #[trigger] sel[a] as int, #[trigger] sel[b] as int)
    &&& forall|t: int, j: usize| 0 <= t < sel.len() && j < sims.len() && !sel.contains(j)
        ==> #[trigger] ranks_before(sims, sel[t] as int, j as int)
}

/// Positions of the `k` highest similarity scores, best first; equal scores
/// keep the order of their positions.
pub fn rank_by_similarity(sims: &Vec<u64>, k: usize) -> (sel: Vec<usize>)
    ensures
        is_top_k(sims@, k as nat, sel@),
{
    let n = sims.len();
    let limit = if k < n { k } else { n };
    let mut remaining: Vec<usize> = Vec::new();
    let mut i: usize = 0;
    while i < n
        invariant
            0 <= i <= n,
            n == sims@.len(),
            remaining@.len() == i,
            forall|q: int| 0 <= q < i ==> #[trigger] remaining@[q] == q,
        decreases n - i,
    {
        remaining.push(i);
        i = i + 1;
    }
    let mut sel: Vec<usize> = Vec::new();
    assert forall|j: usize| j < n implies #[trigger] sel@.contains(j) || #[trigger] remaining@.contains(j) by {
        assert(remaining@[j as int] == j);
    }
    while sel.len() < limit
        invariant
            n == sims@.len(),
            limit <= n,
            sel@.len() <= limit,
            sel@.len() + remaining@.len() == n,
            forall|q: int| 0 <= q < remaining@.len() ==> #[trigger] remaining@[q] < n,
            forall|q: int, w: int| 0 <= q < w < remaining@.len() ==> #[trigger] remaining@[q] < #[trigger] remaining@[w],
            forall|t: int| 0 <= t < sel@.len() ==> #[trigger] sel@[t] < n,
            forall|a: int, b: int| 0 <= a < b < sel@.len()
                ==> ranks_before(sims@, #[trigger] sel@[a] as int, #[trigger] sel@[b] as int),
            forall|t: int, q: int| 0 <= t < sel@.len() && 0 <= q < remaining@.len()
                ==> ranks_before(sims@, #[trigger] sel@[t] as int, #[trigger] remaining@[q] as int),
            forall|j: usize| j < n ==> #[trigger] sel@.contains(j) || #[trigger] remaining@.contains(j),
        decreases limit - sel@.len(),
    {
        let mut best: usize = 0;
        let mut p: usize = 1;
        while p < remaining.len()
            invariant
                n == sims@.len(),
                0 <= best < p <= remaining@.len(),
                forall|q: int| 0 <= q < remaining@.len() ==> #[trigger] remaining@[q] < n,
                forall|q: int, w: int| 0 <= q < w < remaining@.len() ==> #[trigger] remaining@[q] < #[trigger] remaining@[w],
                forall|q: int| 0 <= q < p && q != best
                    ==> ranks_before(sims@, remaining@[best as int] as int, #[trigger] remaining@[q] as int),
            decreases remaining@.len() - p,
        {
            if sims[remaining[p]] > sims[remaining[best]] {
                best = p;
            }
            p = p + 1;
        }
        let ghost rem_before = remaining@;
        let ghost sel_before = sel@;
        let b = remaining.remove(best);
        sel.push(b);
        assert forall|j: usize| j < n implies #[trigger] sel@.contains(j) || #[trigger] remaining@.contains(j) by {
            if sel_before.contains(j) {
                let t = choose|t: int| 0 <= t < sel_before.len() && sel_before[t] == j;
                assert(sel@[t] == j);
            } else {
                assert(rem_before.contains(j));
                let q = choose|q: int| 0 <= q < rem_before.len() && rem_before[q] == j;
                if q < best {
                    assert(remaining@[q] == j);
                } else if q > best {
                    assert(remaining@[q - 1] == j);
                } else {
                    assert(sel@[sel_before.len() as int] == j);
                }
            }
        }
        assert forall|t: int, q: int| 0 <= t < sel@.len() && 0 <= q < remaining@.len()
            implies ranks_before(sims@, #[trigger] sel@[t] as int, #[trigger] remaining@[q] as int) by {
            let qq = if q < best { q } else { q + 1 };
            assert(remaining@[q] == rem_before[qq]);
        }
    }
    proof {
        assert forall|t: int, j: usize| 0 <= t < sel@.len() && j < sims@.len() && !sel@.contains(j)
            implies #[trigger] ranks_before(sims@, sel@[t] as int, j as int) by {
            assert(remaining@.contains(j));
            let q = choose|q: int| 0 <= q < remaining@.len() && remaining@[q] == j;
            assert(ranks_before(sims@, sel@[t] as int, remaining@[q] as int));
        }
    }
    sel
}

/// `after` is `before` with the entries at the positions in `sel` touched at
/// time `now` and all others left as they were.
pub open spec fn touched_at<R, F: Fn(u64, usize, usize) -> u64>(
    refresh: F,
    now: int,
    before: Seq<MemoryEntry<R>>,
    sel: Seq<usize>,
    after: Seq<MemoryEntry<R>>,
) -> bool {
    &&& after.len() == before.len()
    &&& forall|t: int| 0 <= t < sel.len()
        ==> touched(refresh, now, before[#[trigger] sel[t] as int], after[sel[t] as int])
    &&& forall|j: usize| j < before.len() && !sel.contains(j) ==> #[trigger] after[j as int] == before[j as int]
}

/// Entry `e` belongs to the temporal context at time `now`: it is at most
/// `max_distance` ticks old and its importance exceeds `retention`.
pub open spec fn in_context<R>(e: MemoryEntry<R>, now: int, max_distance: int, retention: u64) -> bool {
    now - e.timestamp <= max_distance && e.importance > retention
}

/// Positions from `lo` on of the entries in the temporal context, latest first.
pub open spec fn context_positions<R>(
    s: Seq<MemoryEntry<R>>,
    lo: int,
    now: int,
    max_distance: int,
    retention: u64,
) -> Seq<usize>
    decreases s.len() - lo,
{
    if lo >= s.len() {
        seq![]
    } else {
        let rest = context_positions(s, lo + 1, now, max_distance, retention);
        if in_context(s[lo], now, max_distance, retention) {
            rest.push(lo as usize)
        } else {
            rest
        }
    }
}

/// A bounded, time-ordered store of pooled representations.
pub struct MemoryBank<R> {
    memories: Vec<MemoryEntry<R>>,
    config: MemoryConfig,
    current_timestamp: usize,
    compressed_memories: Vec<R>,
}

impl<R> MemoryBank<R> {
    /// Live entries, oldest first.
    pub closed spec fn entries(&self) -> Seq<MemoryEntry<R>> {
        self.memories@
    }

    /// The logical clock: the number of stores since creation or the last clear.
    pub closed spec fn now(&self) -> nat {
        self.current_timestamp as nat
    }

    pub closed spec fn config(&self) -> MemoryConfig {
        self.config
    }

    /// Summaries of compressed entries, in the order they were made.
    pub closed spec fn archive(&self) -> Seq<R> {
        self.compressed_memories@
    }

    /// Live entries stay within capacity, carry timestamps no later than the
    /// clock, and are kept in arrival order.
    pub open spec fn wf(&self) -> bool {
        &&& self.entries().len() <= self.config().max_memory_size
        &&& forall|i: int| 0 <= i < self.entries().len() ==> (#[trigger] self.entries()[i]).timestamp <= self.now()
        &&& forall|i: int, j: int| 0 <= i < j < self.entries().len()
            ==> #[trigger] self.entries()[i].timestamp < #[trigger] self.entries()[j].timestamp
    }

    /// No access count is at the top of its range, so each entry can be touched once more.
    pub open spec fn counts_below_max(&self) -> bool {
        forall|i: int| 0 <= i < self.entries().len() ==> (#[trigger] self.entries()[i]).access_count < usize::MAX
    }

    /// The live entries once `representation` has arrived at the next tick.
    pub open spec fn arrived(&self, representation: R) -> Seq<MemoryEntry<R>> {
        self.entries().push(
            MemoryEntry {
                representation,
                timestamp: (self.now() + 1) as usize,
                importance: self.config().initial_importance,
                access_count: 0,
            },
        )
    }

    pub fn new(config: MemoryConfig) -> (r: Self)
        ensures
            r.wf(),
            r.entries().len() == 0,
            r.now() == 0,
            r.config() == config,
            r.archive().len() == 0,
    {
        MemoryBank {
            memories: Vec::new(),
            config,
            current_timestamp: 0,
            compressed_memories: Vec::new(),
        }
    }

    /// Refreshes every live entry at the current time.
    fn update_all_importance_scores<F: Fn(u64, usize, usize) -> u64>(&mut self, refresh: &F)
        requires
            total_rule(*refresh),
            forall|i: int| 0 <= i < old(self).memories@.len()
                ==> (#[trigger] old(self).memories@[i]).timestamp <= old(self).current_timestamp,
            forall|i: int| 0 <= i < old(self).memories@.len()
                ==> (#[trigger] old(self).memories@[i]).access_count < usize::MAX,
        ensures
            all_touched(*refresh, old(self).current_timestamp as int, old(self).memories@, final(self).memories@),
            final(self).config == old(self).config,
            final(self).current_timestamp == old(self).current_timestamp,
            final(self).compressed_memories == old(self).compressed_memories,
    {
        let ghost before = self.memories@;
        let n = self.memories.len();
        let mut i: usize = 0;
        while i < n
            invariant
                n == before.len(),
                self.memories@.len() == n,
                0 <= i <= n,
                self.config == old(self).config,
                self.current_timestamp == old(self).current_timestamp,
                self.compressed_memories == old(self).compressed_memories,
                before == old(self).memories@,
                total_rule(*refresh),
                forall|j: int| 0 <= j < n ==> (#[trigger] before[j]).timestamp <= self.current_timestamp,
                forall|j: int| 0 <= j < n ==> (#[trigger] before[j]).access_count < usize::MAX,
                forall|j: int| 0 <= j < i ==> touched(*refresh, self.current_timestamp as int, before[j], #[trigger] self.memories@[j]),
                forall|j: int| i <= j < n ==> #[trigger] self.memories@[j] == before[j],
            decreases n - i,
        {
            let mut e = self.memories.remove(i);
            e.update_importance(refresh, self.current_timestamp);
            self.memories.insert(i, e);
            i = i + 1;
        }
    }

    /// Refreshes every entry at the current time, then removes the one with the
    /// lowest importance, the earliest of equals.
    fn evict_memories<F: Fn(u64, usize, usize) -> u64>(&mut self, refresh: &F) -> (r: (
        usize,
        Ghost<Seq<MemoryEntry<R>>>,
    ))
        requires
            total_rule(*refresh),
            old(self).memories@.len() > 0,
            forall|i: int| 0 <= i < old(self).memories@.len()
                ==> (#[trigger] old(self).memories@[i]).timestamp <= old(self).current_timestamp,
            forall|i: int| 0 <= i < old(self).memories@.len()
                ==> (#[trigger] old(self).memories@[i]).access_count < usize::MAX,
        ensures
            all_touched(*refresh, old(self).current_timestamp as int, old(self).memories@, r.1@),
            evicts_first(r.1@, r.0 as int),
            final(self).memories@ == r.1@.remove(r.0 as int),
            final(self).config == old(self).config,
            final(self).current_timestamp == old(self).current_timestamp,
            final(self).compressed_memories == old(self).compressed_memories,
    {
        self.update_all_importance_scores(refresh);
        let ghost refreshed = self.memories@;
        let m = lowest_importance(&self.memories);
        self.memories.remove(m);
        (m, Ghost(refreshed))
    }

    /// Stores a pooled representation at the next tick with the initial
    /// importance. When that takes the bank past capacity, every entry is
    /// refreshed with `refresh` and the one of lowest importance (the earliest
    /// of equals) is evicted.
    pub fn store<F: Fn(u64, usize, usize) -> u64>(&mut self, representation: R, refresh: &F)
        requires
            old(self).wf(),
            old(self).counts_below_max(),
            old(self).now() < usize::MAX,
            total_rule(*refresh),
        ensures
            final(self).wf(),
            final(self).now() == old(self).now() + 1,
            final(self).config() == old(self).config(),
            final(self).archive() == old(self).archive(),
            old(self).arrived(representation).len() <= old(self).config().max_memory_size
                ==> final(self).entries() == old(self).arrived(representation),
            old(self).arrived(representation).len() > old(self).config().max_memory_size
                ==> exists|refreshed: Seq<MemoryEntry<R>>, m: int|
                all_touched(*refresh, final(self).now() as int, old(self).arrived(representation), refreshed)
                && evicts_first(refreshed, m) && final(self).entries() == refreshed.remove(m),
    {
        let ghost arrived = self.arrived(representation);
        self.current_timestamp = self.current_timestamp + 1;
        let entry = MemoryEntry::new(representation, self.current_timestamp, self.config.initial_importance);
        self.memories.push(entry);
        assert(self.memories@ == arrived);
        if self.memories.len() > self.config.max_memory_size {
            let (m, Ghost(refreshed)) = self.evict_memories(refresh);
            let ghost after = self.memories@;
            assert forall|i: int, j: int| 0 <= i < j < after.len()
                implies #[trigger] after[i].timestamp < #[trigger] after[j].timestamp by {
                let ii = if i < m { i } else { i + 1 };
                let jj = if j < m { j } else { j + 1 };
                assert(after[i] == refreshed[ii]);
                assert(after[j] == refreshed[jj]);
                assert(touched(*refresh, self.current_timestamp as int, arrived[ii], refreshed[ii]));
                assert(touched(*refresh, self.current_timestamp as int, arrived[jj], refreshed[jj]));
            }
            assert forall|i: int| 0 <= i < after.len()
                implies (#[trigger] after[i]).timestamp <= self.current_timestamp by {
                let ii = if i < m { i } else { i + 1 };
                assert(after[i] == refreshed[ii]);
                assert(touched(*refresh, self.current_timestamp as int, arrived[ii], refreshed[ii]));
            }
        }
    }

    /// Empties the live entries and the archive and resets the clock.
    pub fn clear(&mut self)
        ensures
            final(self).wf(),
            final(self).entries().len() == 0,
            final(self).archive().len() == 0,
            final(self).now() == 0,
            final(self).config() == old(self).config(),
    {
        self.memories.clear();
        self.compressed_memories.clear();
        self.current_timestamp = 0;
    }

    /// Number of live entries.
    pub fn size(&self) -> (r: usize)
        ensures
            r == self.entries().len(),
    {
        self.memories.len()
    }

    pub fn current_timestamp(&self) -> (r: usize)
        ensures
            r == self.now(),
    {
        self.current_timestamp
    }

    pub fn memory_config(&self) -> (r: MemoryConfig)
        ensures
            r == self.config(),
    {
        self.config
    }

    /// The live entries, oldest first.
    pub fn memories(&self) -> (r: &Vec<MemoryEntry<R>>)
        ensures
            r@ == self.entries(),
    {
        &self.memories
    }

    /// The summaries made by compression, oldest first.
    pub fn compressed_memories(&self) -> (r: &Vec<R>)
        ensures
            r@ == self.archive(),
    {
        &self.compressed_memories
    }

    /// Returns the representations of the `k` entries most similar to a query
    /// (all of them when fewer are live), most similar first, equal scores in
    /// arrival order. `similarities` holds each live entry's similarity to the
    /// query as an order key. Each returned entry is touched: its importance is
    /// refreshed with `refresh` at the current time and its access count rises
    /// by one; the other entries stay as they were.
    pub fn retrieve<F: Fn(u64, usize, usize) -> u64>(
        &mut self,
        similarities: &Vec<u64>,
        k: usize,
        refresh: &F,
    ) -> (r: Vec<R>) where R: Clone
        requires
            old(self).wf(),
            old(self).counts_below_max(),
            total_rule(*refresh),
            similarities@.len() == old(self).entries().len(),
        ensures
            final(self).wf(),
            final(self).now() == old(self).now(),
            final(self).config() == old(self).config(),
            final(self).archive() == old(self).archive(),
            exists|sel: Seq<usize>|
                {
                    &&& is_top_k(similarities@, k as nat, sel)
                    &&& touched_at(*refresh, old(self).now() as int, old(self).entries(), sel, final(self).entries())
                    &&& r@.len() == sel.len()
                    &&& forall|t: int| 0 <= t < sel.len()
                        ==> cloned(old(self).entries()[#[trigger] sel[t] as int].representation, r@[t])
                },
    {
        let sel = rank_by_similarity(similarities, k);
        let ghost before = self.memories@;
        let n = self.memories.len();
        let mut out: Vec<R> = Vec::new();
        let mut t: usize = 0;
        while t < sel.len()
            invariant
                is_top_k(similarities@, k as nat, sel@),
                n == before.len(),
                n == similarities@.len(),
                before == old(self).memories@,
                self.memories@.len() == n,
                0 <= t <= sel@.len(),
                out@.len() == t,
                self.config == old(self).config,
                self.current_timestamp == old(self).current_timestamp,
                self.compressed_memories == old(self).compressed_memories,
                total_rule(*refresh),
                forall|i: int| 0 <= i < n ==> (#[trigger] before[i]).timestamp <= self.current_timestamp,
                forall|i: int| 0 <= i < n ==> (#[trigger] before[i]).access_count < usize::MAX,
                forall|a: int| 0 <= a < t
                    ==> touched(*refresh, self.current_timestamp as int, before[#[trigger] sel@[a] as int], self.memories@[sel@[a] as int]),
                forall|a: int| 0 <= a < t
                    ==> cloned(before[#[trigger] sel@[a] as int].representation, out@[a]),
                forall|j: usize| j < n && !sel@.subrange(0, t as int).contains(j)
                    ==> #[trigger] self.memories@[j as int] == before[j as int],
            decreases sel@.len() - t,
        {
            let idx = sel[t];
            assert(!sel@.subrange(0, t as int).contains(idx)) by {
                if sel@.subrange(0, t as int).contains(idx) {
                    let a = choose|a: int| 0 <= a < t && sel@.subrange(0, t as int)[a] == idx;
                    assert(ranks_before(similarities@, sel@[a] as int, sel@[t as int] as int));
                }
            }
            let ghost mid = self.memories@;
            let mut e = self.memories.remove(idx);
            e.update_importance(refresh, self.current_timestamp);
            out.push(e.representation.clone());
            self.memories.insert(idx, e);
            assert(self.memories@ == mid.update(idx as int, self.memories@[idx as int]));
            assert forall|a: int| 0 <= a < t + 1
                implies touched(*refresh, self.current_timestamp as int, before[#[trigger] sel@[a] as int], self.memories@[sel@[a] as int]) by {
                if a < t {
                    assert(ranks_before(similarities@, sel@[a] as int, sel@[t as int] as int));
                }
            }
            assert forall|j: usize| j < n && !sel@.subrange(0, t + 1).contains(j)
                implies #[trigger] self.memories@[j as int] == before[j as int] by {
                assert(sel@.subrange(0, t + 1)[t as int] == idx);
                if sel@.subrange(0, t as int).contains(j) {
                    let a = choose|a: int| 0 <= a < t && sel@.subrange(0, t as int)[a] == j;
                    assert(sel@.subrange(0, t + 1)[a] == j);
                }
            }
            t = t + 1;
        }
        assert(sel@.subrange(0, sel@.len() as int) =~= sel@);
        let ghost after = self.memories@;
        assert forall|i: int, j: int| 0 <= i < j < after.len()
            implies #[trigger] after[i].timestamp < #[trigger] after[j].timestamp by {
            assert(after[i].timestamp == before[i].timestamp) by {
                if sel@.contains(i as usize) {
                    let a = choose|a: int| 0 <= a < sel@.len() && sel@[a] == i as usize;
                    assert(touched(*refresh, self.current_timestamp as int, before[sel@[a] as int], after[sel@[a] as int]));
                } else {
                    assert(after[(i as usize) as int] == before[(i as usize) as int]);
                }
            }
            assert(after[j].timestamp == before[j].timestamp) by {
                if sel@.contains(j as usize) {
                    let a = choose|a: int| 0 <= a < sel@.len() && sel@[a] == j as usize;
                    assert(touched(*refresh, self.current_timestamp as int, before[sel@[a] as int], after[sel@[a] as int]));
                } else {
                    assert(after[(j as usize) as int] == before[(j as usize) as int]);
                }
            }
        }
        assert forall|i: int| 0 <= i < after.len()
            implies (#[trigger] after[i]).timestamp <= self.current_timestamp by {
            if sel@.contains(i as usize) {
                let a = choose|a: int| 0 <= a < sel@.len() && sel@[a] == i as usize;
                assert(touched(*refresh, self.current_timestamp as int, before[sel@[a] as int], after[sel@[a] as int]));
            } else {
                assert(after[(i as usize) as int] == before[(i as usize) as int]);
            }
        }
        assert(touched_at(*refresh, self.current_timestamp as int, before, sel@, after));
        out
    }

    /// Representations of the entries at most `max_distance` ticks old whose
    /// importance exceeds the retention threshold, latest first. The query
    /// takes no part in the choice. Nothing in the bank changes.
    pub fn get_temporal_context(&self, query: &R, max_distance: usize) -> (r: Vec<R>) where R: Clone
        requires
            self.wf(),
        ensures
            r@.len() == context_positions(
                self.entries(),
                0,
                self.now() as int,
                max_distance as int,
                self.config().retention_threshold,
            ).len(),
            forall|t: int| 0 <= t < r@.len() ==> cloned(
                self.entries()[context_positions(
                    self.entries(),
                    0,
                    self.now() as int,
                    max_distance as int,
                    self.config().retention_threshold,
                )[t] as int].representation,
                #[trigger] r@[t],
            ),
    {
        let ghost s = self.memories@;
        let ghost now = self.current_timestamp as int;
        let ghost retention = self.config.retention_threshold;
        let mut context: Vec<R> = Vec::new();
        let mut i: usize = self.memories.len();
        while i > 0
            invariant
                s == self.memories@,
                self.wf(),
                now == self.current_timestamp,
                retention == self.config.retention_threshold,
                0 <= i <= s.len(),
                context@.len() == context_positions(s, i as int, now, max_distance as int, retention).len(),
                forall|t: int| 0 <= t < context@.len() ==> cloned(
                    s[context_positions(s, i as int, now, max_distance as int, retention)[t] as int].representation,
                    #[trigger] context@[t],
                ),
            decreases i,
        {
            i = i - 1;
            let memory = &self.memories[i];
            assert(memory.timestamp <= self.current_timestamp) by {
                assert(self.entries()[i as int] == s[i as int]);
            }
            let distance = self.current_timestamp - memory.timestamp;
            if distance <= max_distance && memory.importance > self.config.retention_threshold {
                context.push(memory.representation.clone());
            }
        }
        context
    }

    /// When more entries are live than the compression batch, removes the
    /// batch of oldest entries and, if the batch is not empty, archives the
    /// summary `combine` makes of them. Otherwise nothing changes.
    pub fn compress_old_memories<G: Fn(Vec<MemoryEntry<R>>) -> R>(&mut self, combine: &G)
        requires
            old(self).wf(),
            forall|v: Vec<MemoryEntry<R>>| call_requires(*combine, (v,)),
        ensures
            final(self).wf(),
            final(self).now() == old(self).now(),
            final(self).config() == old(self).config(),
            old(self).entries().len() <= old(self).config().compression_batch ==> {
                &&& final(self).entries() == old(self).entries()
                &&& final(self).archive() == old(self).archive()
            },
            old(self).entries().len() > old(self).config().compression_batch ==> final(self).entries()
                == old(self).entries().subrange(
                old(self).config().compression_batch as int,
                old(self).entries().len() as int,
            ),
            old(self).entries().len() > old(self).config().compression_batch
                && old(self).config().compression_batch == 0 ==> final(self).archive() == old(self).archive(),
            old(self).entries().len() > old(self).config().compression_batch
                && old(self).config().compression_batch > 0 ==> exists|batch: Vec<MemoryEntry<R>>, c: R|
                {
                    &&& batch@ == old(self).entries().subrange(0, old(self).config().compression_batch as int)
                    &&& call_ensures(*combine, (batch,), c)
                    &&& final(self).archive() == old(self).archive().push(c)
                },
    {
        let batch_len = self.config.compression_batch;
        if self.memories.len() <= batch_len {
            return;
        }
        let mut oldest = self.memories.split_off(batch_len);
        std::mem::swap(&mut self.memories, &mut oldest);
        if oldest.len() > 0 {
            let compressed = combine(oldest);
            self.compressed_memories.push(compressed);
        }
    }
}

/// Capacity: a well-formed bank, which every operation leaves behind, never
/// holds more live entries than its capacity.
pub proof fn lemma_capacity<R>(bank: MemoryBank<R>)
    requires
        bank.wf(),
    ensures
        bank.entries().len() <= bank.config().max_memory_size,
{
}

/// The clock counts stores: along a run of banks that starts at zero and where
/// each step advances the clock by one tick, as `store` does, the clock reads
/// the number of steps taken and never goes back.
pub proof fn lemma_clock_counts_stores<R>(banks: Seq<MemoryBank<R>>)
    requires
        banks.len() > 0,
        banks[0].now() == 0,
        forall|i: int| 0 <= i < banks.len() - 1 ==> (#[trigger] banks[i + 1]).now() == banks[i].now() + 1,
    ensures
        forall|i: int| 0 <= i < banks.len() ==> (#[trigger] banks[i]).now() == i,
        forall|i: int, j: int| 0 <= i <= j < banks.len() ==> (#[trigger] banks[i]).now() <= (#[trigger] banks[j]).now(),
    decreases banks.len(),
{
    if banks.len() > 1 {
        let prefix = banks.drop_last();
        assert forall|i: int| 0 <= i < prefix.len() - 1 implies (#[trigger] prefix[i + 1]).now() == prefix[i].now() + 1 by {
            assert(prefix[i + 1] == banks[i + 1]);
            assert(prefix[i] == banks[i]);
        }
        lemma_clock_counts_stores(prefix);
        assert forall|i: int| 0 <= i < banks.len() implies (#[trigger] banks[i]).now() == i by {
            if i < banks.len() - 1 {
                assert(prefix[i] == banks[i]);
                assert(prefix[i].now() == i);
            } else {
                assert(prefix[i - 1] == banks[i - 1]);
                assert(prefix[i - 1].now() == i - 1);
                let k = i - 1;
                assert(banks[k + 1].now() == banks[k].now() + 1);
            }
        }
    }
}

/// Eviction tie-break: of entries with the same importance, the earliest is
/// evicted first; no entry before the evicted one has its importance.
pub proof fn lemma_eviction_prefers_earliest<R>(s: Seq<MemoryEntry<R>>, m: int, i: int)
    requires
        evicts_first(s, m),
        0 <= i < s.len(),
        s[i].importance == s[m].importance,
    ensures
        m <= i,
{
}

/// The entry chosen for eviction is determined by the importances alone.
pub proof fn lemma_eviction_choice_unique<R>(s: Seq<MemoryEntry<R>>, m1: int, m2: int)
    requires
        evicts_first(s, m1),
        evicts_first(s, m2),
    ensures
        m1 == m2,
{
    if m1 < m2 {
        assert(s[m1].importance <= s[m2].importance);
        assert(s[m2].importance < s[m1].importance);
    } else if m2 < m1 {
        assert(s[m2].importance <= s[m1].importance);
        assert(s[m1].importance < s[m2].importance);
    }
}

/// Retrieval side effect: the access count of each retrieved entry rises by
/// exactly one, and that of every other entry stays as it was.
pub proof fn lemma_retrieval_counts<R, F: Fn(u64, usize, usize) -> u64>(
    refresh: F,
    now: int,
    before: Seq<MemoryEntry<R>>,
    sel: Seq<usize>,
    after: Seq<MemoryEntry<R>>,
)
    requires
        touched_at(refresh, now, before, sel, after),
    ensures
        forall|j: usize| j < before.len() && sel.contains(j)
            ==> (#[trigger] after[j as int]).access_count == before[j as int].access_count + 1,
        forall|j: usize| j < before.len() && !sel.contains(j)
            ==> (#[trigger] after[j as int]).access_count == before[j as int].access_count,
{
    assert forall|j: usize| j < before.len() && sel.contains(j)
        implies (#[trigger] after[j as int]).access_count == before[j as int].access_count + 1 by {
        let t = choose|t: int| 0 <= t < sel.len() && sel[t] == j;
        assert(touched(refresh, now, before[sel[t] as int], after[sel[t] as int]));
    }
}

/// Clear resets: a cleared bank is empty with its clock at zero, so the store
/// that follows stamps its entry 1 and leaves the clock at 1.
pub proof fn lemma_clear_then_store<R>(cleared: MemoryBank<R>, stored: MemoryBank<R>, representation: R)
    requires
        cleared.entries().len() == 0,
        cleared.now() == 0,
        stored.now() == cleared.now() + 1,
    ensures
        cleared.arrived(representation).len() == 1,
        cleared.arrived(representation)[0].timestamp == 1,
        stored.now() == 1,
{
}

} // verus!
