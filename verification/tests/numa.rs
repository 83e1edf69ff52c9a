use zion::numa::{build_table, cpu_to_node, current_cpu, current_thread_node, is_stale};
use zion::numa::{node_count, parse_cpu_list, NodeCache, NumaAwareMap};

#[test]
fn single_shard_round_trip() {
    let mut m = NumaAwareMap::with_shards(1);
    assert_eq!(m.shard_count(), 1);
    assert_eq!(m.insert(0, 7, 77), None);
    assert_eq!(m.get(0, 7), Some(77));
    assert_eq!(m.len(), 1);
    let removed = m.remove(0, 7);
    assert!(removed.is_some());
    assert_eq!(m.len(), 0);
}

#[test]
fn multi_shard_local_then_fallback() {
    let mut m = NumaAwareMap::with_shards(4);
    assert_eq!(m.shard_count(), 4);
    m.insert(0, 42, 1);
    assert_eq!(m.get(0, 42), Some(1));
    m.remove(0, 42);
    assert!(m.get(0, 42).is_none());
}

#[test]
fn multi_shard_invariant_one_key_one_shard() {
    let mut m = NumaAwareMap::with_shards(4);
    m.insert(0, 1, 100);
    m.insert(0, 1, 200);
    assert_eq!(m.len(), 1);
    assert_eq!(m.get(0, 1), Some(200));
}

#[test]
fn inserts_land_on_local_shard_only() {
    let mut m = NumaAwareMap::with_shards(4);
    for i in 0..32u64 {
        m.insert(0, i, i);
    }
    let lens = m.shard_lens();
    assert_eq!(
        lens,
        vec![32, 0, 0, 0],
        "expected all in shard[0]; got {lens:?}"
    );
    assert_eq!(m.len(), 32);
    assert!(m.remove(0, 5).is_some());
    assert_eq!(m.shard_lens(), vec![31, 0, 0, 0]);
}

#[test]
fn iter_walks_all_shards() {
    let mut m = NumaAwareMap::with_shards(4);
    for i in 0..16u64 {
        m.insert(0, i, i * 10);
    }
    let mut seen: Vec<u64> = m.iter().iter().flatten().map(|r| r.0).collect();
    seen.sort_unstable();
    assert_eq!(seen, (0..16).collect::<Vec<_>>());
    assert_eq!(m.len(), 16);
}

#[test]
fn empty_after_clear_via_remove() {
    let mut m = NumaAwareMap::with_shards(2);
    m.insert(0, 1, 1);
    m.insert(0, 2, 2);
    assert!(!m.is_empty());
    m.remove(0, 1);
    m.remove(0, 2);
    assert!(m.is_empty());
}

#[test]
fn parse_sysfs_cpu_list_shapes() {
    let t = build_table(None, &Vec::new());
    assert!(node_count(&t) >= 1);
    assert_eq!(parse_cpu_list("3"), vec![3]);
    assert_eq!(parse_cpu_list("0-3"), vec![0, 1, 2, 3]);
    assert_eq!(parse_cpu_list("0-1,4,6-7"), vec![0, 1, 4, 6, 7]);
    assert_eq!(parse_cpu_list("0,"), vec![0]);
    assert!(parse_cpu_list("").is_empty());
}

#[test]
fn a_key_moves_to_the_node_that_writes_it() {
    let mut m = NumaAwareMap::with_shards(3);
    m.insert(0, 9, 1);
    assert_eq!(m.insert(2, 9, 2), None);
    assert_eq!(m.shard_lens(), vec![0, 0, 1]);
    for node in 0..5 {
        assert_eq!(m.get(node, 9), Some(2));
    }
    assert_eq!(m.remove(1, 9), Some((9, 2)));
    assert!(m.is_empty());
}

#[test]
fn topology_maps_cpus_to_nodes() {
    let t = build_table(
        Some("0-1"),
        &vec![Some("0-3".to_string()), Some("4-7".to_string())],
    );
    assert_eq!(node_count(&t), 2);
    assert_eq!(cpu_to_node(&t, 2), 0);
    assert_eq!(cpu_to_node(&t, 5), 1);
    assert_eq!(cpu_to_node(&t, 100_000), 0);
    assert_eq!(current_cpu(-1), 0);
    assert_eq!(current_cpu(6), 6);
}

#[test]
fn the_node_is_looked_up_now_and_then() {
    let mut c = NodeCache { ticks: 0, node: 0 };
    assert!(is_stale(&c));
    assert_eq!(current_thread_node(&mut c, 1), 1);
    for _ in 0..255 {
        assert!(!is_stale(&c));
        assert_eq!(current_thread_node(&mut c, 0), 1);
    }
    assert!(is_stale(&c));
    assert_eq!(current_thread_node(&mut c, 0), 0);
}
