use vstd::prelude::*;

verus! {

/// Failures of the temporal attention blend.
#[derive(Clone, Copy, Debug, PartialEq, Eq, Structural)]
pub enum TemporalError {
    /// The key, value and distance lists differ in length.
    LengthMismatch { keys: usize, values: usize, distances: usize },
}

/// Configuration of the decay-weighted attention blend over past states.
///
/// Entries farther back than `max_temporal_distance` take no part; the
/// attention arithmetic and the `decay^distance` weighting of the kept
/// entries are done over the positions `kept_positions` selects.
#[derive(Clone, Copy, Debug, PartialEq, Eq, Structural)]
pub struct TemporalAttention {
    pub max_temporal_distance: usize,
}

/// Positions below `hi` whose distance is within `max_distance`, in order.
pub open spec fn within_distance(distances: Seq<usize>, max_distance: usize, hi: int) -> Seq<usize>
    decreases hi,
{
    if hi <= 0 {
        seq![]
    } else {
        let rest = within_distance(distances, max_distance, hi - 1);
        if distances[hi - 1] <= max_distance {
            rest.push((hi - 1) as usize)
        } else {
            rest
        }
    }
}

/// Distances `1..=n`, assigned by list position.
pub open spec fn positional_distances(n: nat) -> Seq<usize> {
    Seq::new(n, |i: int| (i + 1) as usize)
}

impl TemporalAttention {
    pub fn new(max_temporal_distance: usize) -> (r: Self)
        ensures
            r.max_temporal_distance == max_temporal_distance,
    {
        TemporalAttention { max_temporal_distance }
    }

    /// The positions of the (key, value, distance) triples that take part in a
    /// blend, in order: those whose distance is within the maximum. Fails when
    /// the three lists differ in length.
    pub fn kept_positions(&self, n_keys: usize, n_values: usize, distances: &Vec<usize>) -> (r: Result<
        Vec<usize>,
        TemporalError,
    >)
        ensures
            r is Err <==> (n_keys != n_values || n_keys != distances@.len()),
            r matches Err(e) ==> e == (TemporalError::LengthMismatch {
                keys: n_keys,
                values: n_values,
                distances: distances@.len() as usize,
            }),
            r matches Ok(kept) ==> kept@ == within_distance(
                distances@,
                self.max_temporal_distance,
                distances@.len() as int,
            ),
    {
        if n_keys != n_values || n_keys != distances.len() {
            return Err(
                TemporalError::LengthMismatch { keys: n_keys, values: n_values, distances: distances.len() },
            );
        }
        let mut kept: Vec<usize> = Vec::new();
        let mut i: usize = 0;
        while i < distances.len()
            invariant
                0 <= i <= distances@.len(),
                kept@ == within_distance(distances@, self.max_temporal_distance, i as int),
            decreases distances@.len() - i,
        {
            if distances[i] <= self.max_temporal_distance {
                kept.push(i);
            }
            i = i + 1;
        }
        Ok(kept)
    }
}

/// The distances `1..=n` that stand in for the ages of `n` context entries.
pub fn synthetic_distances(n: usize) -> (r: Vec<usize>)
    ensures
        r@ == positional_distances(n as nat),
{
    let mut r: Vec<usize> = Vec::new();
    let mut i: usize = 0;
    while i < n
        invariant
            0 <= i <= n,
            r@ == positional_distances(i as nat),
        decreases n - i,
    {
        r.push(i + 1);
        i = i + 1;
        assert(r@ =~= positional_distances(i as nat));
    }
    r
}

/// A blend keeps no entry exactly when every distance is beyond the maximum.
pub proof fn lemma_nothing_kept_beyond_cutoff(distances: Seq<usize>, max_distance: usize, hi: int)
    requires
        0 <= hi <= distances.len(),
    ensures
        within_distance(distances, max_distance, hi).len() == 0
            <==> forall|i: int| 0 <= i < hi ==> #[trigger] distances[i] > max_distance,
    decreases hi,
{
    if hi > 0 {
        lemma_nothing_kept_beyond_cutoff(distances, max_distance, hi - 1);
    }
}

/// Every kept position is in range and within the distance cutoff, and every
/// position within the cutoff is kept.
pub proof fn lemma_kept_exactly_within(distances: Seq<usize>, max_distance: usize, hi: int)
    requires
        0 <= hi <= distances.len(),
        distances.len() <= usize::MAX,
    ensures
        forall|t: int| 0 <= t < within_distance(distances, max_distance, hi).len()
            ==> (#[trigger] within_distance(distances, max_distance, hi)[t]) < hi
            && distances[within_distance(distances, max_distance, hi)[t] as int] <= max_distance,
        forall|i: int| 0 <= i < hi && distances[i] <= max_distance
            ==> #[trigger] within_distance(distances, max_distance, hi).contains(i as usize),
    decreases hi,
{
    if hi > 0 {
        lemma_kept_exactly_within(distances, max_distance, hi - 1);
        let rest = within_distance(distances, max_distance, hi - 1);
        let all = within_distance(distances, max_distance, hi);
        assert forall|t: int| 0 <= t < all.len()
            implies (#[trigger] all[t]) < hi && distances[all[t] as int] <= max_distance by {
            if t < rest.len() {
                assert(all[t] == rest[t]);
            }
        }
        assert forall|i: int| 0 <= i < hi && distances[i] <= max_distance
            implies #[trigger] all.contains(i as usize) by {
            if i < hi - 1 {
                assert(rest.contains(i as usize));
                let t = choose|t: int| 0 <= t < rest.len() && rest[t] == i as usize;
                assert(all[t] == i as usize);
            } else {
                assert(all[rest.len() as int] == i as usize);
            }
        }
    }
}

} // verus!
