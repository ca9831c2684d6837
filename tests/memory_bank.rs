use rust_transformer::{lowest_importance, rank_by_similarity, MemoryBank, MemoryConfig, MemoryEntry};

const SCALE: f64 = 1_000_000.0;

fn key(x: f64) -> u64 {
    (x * SCALE).round() as u64
}

fn value(k: u64) -> f64 {
    k as f64 / SCALE
}

/// Decay by `decay^age`, plus a boost of `0.1 * ln(access_count)` once an
/// entry has been read more than once.
fn decay_rule(decay: f64) -> impl Fn(u64, usize, usize) -> u64 {
    move |importance, age, access_count| {
        let time_decay = decay.powi(age as i32);
        let access_boost = (access_count as f64).ln().max(0.0) * 0.1;
        key(value(importance) * time_decay + access_boost)
    }
}

fn keep_rule() -> impl Fn(u64, usize, usize) -> u64 {
    |importance, _age, _count| importance
}

fn config(max: usize, batch: usize) -> MemoryConfig {
    MemoryConfig {
        max_memory_size: max,
        initial_importance: key(1.0),
        retention_threshold: key(0.1),
        compression_batch: batch,
    }
}

fn weighted_average(entries: Vec<MemoryEntry<Vec<f64>>>) -> Vec<f64> {
    let width = entries[0].representation.len();
    let mut sum = vec![0.0; width];
    let mut total = 0.0;
    for e in &entries {
        let w = value(e.importance);
        for (s, x) in sum.iter_mut().zip(e.representation.iter()) {
            *s += w * x;
        }
        total += w;
    }
    if total > 0.0 {
        for s in sum.iter_mut() {
            *s /= total;
        }
    }
    sum
}

fn timestamps(bank: &MemoryBank<Vec<f64>>) -> Vec<usize> {
    bank.memories().iter().map(|e| e.timestamp).collect()
}

#[test]
fn store_never_exceeds_capacity() {
    let rule = decay_rule(0.95);
    let mut bank = MemoryBank::new(config(3, 1));
    for i in 0..10 {
        bank.store(vec![i as f64], &rule);
        assert!(bank.size() <= 3);
    }
    assert_eq!(bank.size(), 3);
}

#[test]
fn clock_counts_stores() {
    let rule = decay_rule(0.95);
    let mut bank = MemoryBank::new(config(4, 2));
    assert_eq!(bank.current_timestamp(), 0);
    for n in 1..=9 {
        bank.store(vec![1.0], &rule);
        assert_eq!(bank.current_timestamp(), n);
    }
}

#[test]
fn new_entry_has_initial_importance() {
    let rule = decay_rule(0.95);
    let mut bank = MemoryBank::new(config(4, 2));
    bank.store(vec![2.0, 3.0], &rule);
    let e = &bank.memories()[0];
    assert_eq!(e.representation, vec![2.0, 3.0]);
    assert_eq!(e.timestamp, 1);
    assert_eq!(e.importance, key(1.0));
    assert_eq!(e.access_count, 0);
}

#[test]
fn eviction_removes_earliest_of_equal_importance() {
    let rule = keep_rule();
    let mut bank = MemoryBank::new(config(3, 1));
    for i in 0..4 {
        bank.store(vec![i as f64], &rule);
    }
    assert_eq!(bank.size(), 3);
    assert_eq!(timestamps(&bank), vec![2, 3, 4]);
    for e in bank.memories() {
        assert_eq!(e.access_count, 1);
    }
}

#[test]
fn eviction_removes_lowest_importance() {
    let rule = decay_rule(0.5);
    let mut bank = MemoryBank::new(config(3, 1));
    for i in 0..4 {
        bank.store(vec![i as f64], &rule);
    }
    // At time 4 the ages are 3, 2, 1, 0: the oldest has decayed most.
    assert_eq!(timestamps(&bank), vec![2, 3, 4]);
    let imps: Vec<u64> = bank.memories().iter().map(|e| e.importance).collect();
    assert_eq!(imps, vec![key(0.25), key(0.5), key(1.0)]);
}

#[test]
fn eviction_spares_a_boosted_old_entry() {
    let mut bank = MemoryBank::new(config(2, 1));
    let rule = |importance: u64, _age: usize, count: usize| importance + 10 * count as u64;
    bank.store(vec![0.0], &rule);
    bank.store(vec![1.0], &rule);
    // Retrieval touches only the first entry, raising its count.
    let got = bank.retrieve(&vec![9, 1], 1, &rule);
    assert_eq!(got, vec![vec![0.0]]);
    bank.retrieve(&vec![9, 1], 1, &rule);
    bank.store(vec![2.0], &rule);
    assert_eq!(timestamps(&bank), vec![1, 3]);
}

#[test]
fn retrieval_touches_only_returned_entries() {
    let rule = keep_rule();
    let mut bank = MemoryBank::new(config(10, 5));
    for i in 0..4 {
        bank.store(vec![i as f64], &rule);
    }
    let got = bank.retrieve(&vec![5, 9, 9, 1], 2, &rule);
    assert_eq!(got, vec![vec![1.0], vec![2.0]]);
    let counts: Vec<usize> = bank.memories().iter().map(|e| e.access_count).collect();
    assert_eq!(counts, vec![0, 1, 1, 0]);
}

#[test]
fn retrieval_refreshes_importance_of_returned_entries() {
    let rule = decay_rule(0.5);
    let mut bank = MemoryBank::new(config(10, 5));
    for i in 0..3 {
        bank.store(vec![i as f64], &rule);
    }
    let got = bank.retrieve(&vec![1, 2, 3], 1, &rule);
    assert_eq!(got, vec![vec![2.0]]);
    let imps: Vec<u64> = bank.memories().iter().map(|e| e.importance).collect();
    assert_eq!(imps, vec![key(1.0), key(1.0), key(1.0)]);
    let got = bank.retrieve(&vec![3, 2, 1], 1, &rule);
    assert_eq!(got, vec![vec![0.0]]);
    let imps: Vec<u64> = bank.memories().iter().map(|e| e.importance).collect();
    assert_eq!(imps, vec![key(0.25), key(1.0), key(1.0)]);
}

#[test]
fn retrieval_returns_all_when_k_exceeds_size() {
    let rule = keep_rule();
    let mut bank = MemoryBank::new(config(10, 5));
    for i in 0..3 {
        bank.store(vec![i as f64], &rule);
    }
    let got = bank.retrieve(&vec![1, 3, 2], 5, &rule);
    assert_eq!(got, vec![vec![1.0], vec![2.0], vec![0.0]]);
    let empty: MemoryBank<Vec<f64>> = MemoryBank::new(config(10, 5));
    let mut empty = empty;
    assert!(empty.retrieve(&vec![], 5, &rule).is_empty());
}

#[test]
fn temporal_context_is_recent_and_retained_latest_first() {
    let rule = keep_rule();
    let mut bank = MemoryBank::new(config(10, 5));
    for i in 0..5 {
        bank.store(vec![i as f64], &rule);
    }
    let query = vec![0.0];
    let ctx = bank.get_temporal_context(&query, 2);
    assert_eq!(ctx, vec![vec![4.0], vec![3.0], vec![2.0]]);
    let ctx = bank.get_temporal_context(&query, 10);
    assert_eq!(ctx.len(), 5);
    assert_eq!(ctx[0], vec![4.0]);
    let ctx = bank.get_temporal_context(&query, 0);
    assert_eq!(ctx, vec![vec![4.0]]);
}

#[test]
fn temporal_context_drops_entries_at_or_below_retention() {
    let rule = decay_rule(0.1);
    let mut bank = MemoryBank::new(config(10, 5));
    for i in 0..3 {
        bank.store(vec![i as f64], &rule);
    }
    // Touching the first entry at time 3 decays it to 1.0 * 0.1^2 = 0.01.
    bank.retrieve(&vec![9, 0, 0], 1, &rule);
    let ctx = bank.get_temporal_context(&vec![0.0], 10);
    assert_eq!(ctx, vec![vec![2.0], vec![1.0]]);
    let counts: Vec<usize> = bank.memories().iter().map(|e| e.access_count).collect();
    assert_eq!(counts, vec![1, 0, 0]);
}

#[test]
fn compression_folds_oldest_batch_into_weighted_average() {
    let rule = decay_rule(0.95);
    let mut bank = MemoryBank::new(config(10, 5));
    for i in 0..11 {
        bank.store(vec![i as f64, 1.0], &rule);
    }
    assert_eq!(bank.size(), 10);
    let before: Vec<MemoryEntry<Vec<f64>>> = bank.memories().clone();
    let expected = weighted_average(before[..5].to_vec());
    bank.compress_old_memories(&weighted_average);
    assert_eq!(bank.size(), 5);
    assert_eq!(timestamps(&bank), before[5..].iter().map(|e| e.timestamp).collect::<Vec<_>>());
    assert_eq!(bank.compressed_memories().len(), 1);
    assert_eq!(bank.compressed_memories()[0], expected);
    // Importance-weighted: the older, more decayed entries weigh less than in a plain mean.
    let plain: f64 = before[..5].iter().map(|e| e.representation[0]).sum::<f64>() / 5.0;
    assert!(expected[0] > plain);
    assert!((expected[1] - 1.0).abs() < 1e-12);
}

#[test]
fn compression_needs_more_than_a_batch() {
    let rule = keep_rule();
    let mut bank = MemoryBank::new(config(10, 5));
    for i in 0..5 {
        bank.store(vec![i as f64], &rule);
    }
    bank.compress_old_memories(&weighted_average);
    assert_eq!(bank.size(), 5);
    assert!(bank.compressed_memories().is_empty());
    bank.store(vec![5.0], &rule);
    bank.compress_old_memories(&weighted_average);
    assert_eq!(bank.size(), 1);
    assert_eq!(timestamps(&bank), vec![6]);
    assert_eq!(bank.compressed_memories(), &vec![vec![2.0]]);
}

#[test]
fn compression_with_empty_batch_archives_nothing() {
    let rule = keep_rule();
    let mut bank = MemoryBank::new(config(10, 0));
    bank.store(vec![1.0], &rule);
    bank.compress_old_memories(&weighted_average);
    assert_eq!(bank.size(), 1);
    assert!(bank.compressed_memories().is_empty());
}

#[test]
fn clear_resets_bank_and_clock() {
    let rule = decay_rule(0.95);
    let mut bank = MemoryBank::new(config(10, 2));
    for i in 0..6 {
        bank.store(vec![i as f64], &rule);
    }
    bank.compress_old_memories(&weighted_average);
    assert_eq!(bank.compressed_memories().len(), 1);
    bank.clear();
    assert_eq!(bank.size(), 0);
    assert_eq!(bank.current_timestamp(), 0);
    assert!(bank.compressed_memories().is_empty());
    bank.store(vec![7.0], &rule);
    assert_eq!(bank.current_timestamp(), 1);
    assert_eq!(bank.memories()[0].timestamp, 1);
}

#[test]
fn update_importance_applies_rule_and_counts_access() {
    let rule = decay_rule(0.5);
    let mut e = MemoryEntry::new(vec![1.0], 2, key(1.0));
    e.update_importance(&rule, 4);
    assert_eq!(e.importance, key(0.25));
    assert_eq!(e.access_count, 1);
    assert_eq!(e.timestamp, 2);
    e.access_count = 3;
    e.update_importance(&rule, 4);
    assert_eq!(e.importance, key(0.0625 + 3f64.ln() * 0.1));
    assert_eq!(e.access_count, 4);
}

#[test]
fn ranking_orders_by_score_then_position() {
    assert_eq!(rank_by_similarity(&vec![3, 7, 7, 1, 7], 4), vec![1, 2, 4, 0]);
    assert_eq!(rank_by_similarity(&vec![3, 7], 5), vec![1, 0]);
    assert_eq!(rank_by_similarity(&vec![3, 7], 0), Vec::<usize>::new());
    assert_eq!(rank_by_similarity(&vec![], 2), Vec::<usize>::new());
}

#[test]
fn lowest_importance_prefers_earliest() {
    let entries: Vec<MemoryEntry<u8>> = [5u64, 2, 9, 2, 2]
        .iter()
        .enumerate()
        .map(|(i, &imp)| MemoryEntry { representation: 0, timestamp: i + 1, importance: imp, access_count: 0 })
        .collect();
    assert_eq!(lowest_importance(&entries), 1);
    let config_copy = config(3, 1);
    assert_eq!(config_copy.max_memory_size, 3);
}
