use bpfimp::addr::{ipv4_bits, ipv4_octets, IpAddr, Source};
use bpfimp::config::{load_config_lists, partition_list, sync_keys};
use bpfimp::{BlockedEntry, Reputation};
use std::collections::{HashMap, HashSet};

fn v4(a: u8, b: u8, c: u8, d: u8) -> Option<IpAddr> {
    Some(IpAddr::V4([a, b, c, d]))
}

/// The address 2001:db8::`last`.
fn doc(last: u16) -> [u8; 16] {
    let [hi, lo] = last.to_be_bytes();
    [0x20, 0x01, 0x0d, 0xb8, 0, 0, 0, 0, 0, 0, 0, 0, 0, 0, hi, lo]
}

fn v6(last: u16) -> Option<IpAddr> {
    Some(IpAddr::V6(doc(last)))
}

fn set<K: std::hash::Hash + Eq + Copy>(keys: &[K]) -> HashSet<K> {
    assert_eq!(keys.iter().collect::<HashSet<_>>().len(), keys.len());
    keys.iter().copied().collect()
}

#[test]
fn octets_and_bits() {
    assert_eq!(ipv4_bits([10, 200, 0, 2]), 0x0ac8_0002);
    assert_eq!(ipv4_octets(0x0ac8_0002), [10, 200, 0, 2]);
    assert_eq!(ipv4_bits([255, 255, 255, 255]), u32::MAX);
    for octets in [[0, 0, 0, 0], [1, 2, 3, 4], [192, 168, 1, 50], [255, 0, 255, 0]] {
        assert_eq!(ipv4_bits(octets), u32::from_be_bytes(octets));
        assert_eq!(ipv4_octets(ipv4_bits(octets)), octets);
    }
}

#[test]
fn keys_and_addresses_go_back_and_forth() {
    let a = IpAddr::V4([1, 2, 3, 4]);
    assert_eq!(a.source(), Source::V4(0x0102_0304));
    assert_eq!(a.source().ip(), a);
    let b = IpAddr::V6(doc(0x50));
    assert_eq!(b.source(), Source::V6(doc(0x50)));
    assert_eq!(b.source().ip(), b);
}

#[test]
fn list_is_sorted_into_families() {
    let list = vec![
        v4(10, 200, 0, 2),
        v6(0x50),
        None,
        v4(192, 168, 1, 50),
        v4(10, 200, 0, 2),
    ];
    let (v4_keys, v6_keys) = partition_list(&list);
    assert_eq!(v4_keys, vec![0x0ac8_0002, 0xc0a8_0132, 0x0ac8_0002]);
    assert_eq!(v6_keys, vec![doc(0x50)]);
    assert_eq!(partition_list(&[]), (vec![], vec![]));
}

#[test]
fn sync_is_a_set_difference() {
    let plan = sync_keys(&[Some(1u32), None, Some(2), Some(2)], &[2, 3, 3]);
    assert_eq!(plan.removals, vec![1]);
    assert_eq!(plan.insertions, vec![3]);

    let a = doc(1);
    let b = doc(2);
    let plan = sync_keys(&[Some(a)], &[b]);
    assert_eq!(plan.removals, vec![a]);
    assert_eq!(plan.insertions, vec![b]);
}

#[test]
fn sync_of_an_unchanged_list_is_empty() {
    let plan = sync_keys(&[Some(1u32), Some(2)], &[2, 1]);
    assert!(plan.removals.is_empty());
    assert!(plan.insertions.is_empty());
}

#[test]
fn listed_peers_keep_their_reputation_across_a_reload() {
    let mut worn = Reputation::new(0);
    worn.score = 35;
    let mut table: HashMap<u32, Reputation> =
        HashMap::from([(1, worn), (2, Reputation::new(0))]);
    let listed: Vec<Option<u32>> = table.keys().copied().map(Some).collect();
    let plan = sync_keys(&listed, &[1, 3]);
    for k in &plan.removals {
        assert!(table.remove(k).is_some());
    }
    for k in &plan.insertions {
        assert!(table.insert(*k, Reputation::new(9)).is_none());
    }
    assert_eq!(table, HashMap::from([(1, worn), (3, Reputation::new(9))]));
}

#[test]
fn config_lists_count_each_address_once() {
    let lists = load_config_lists(
        &[v4(10, 200, 0, 2), v4(10, 200, 0, 2), v6(0x50), None],
        &[v4(192, 168, 1, 50), v6(0xdead), v6(0xdead), v4(1, 1, 1, 1)],
        77,
    );
    assert_eq!(set(&lists.allow_v4), HashSet::from([0x0ac8_0002]));
    assert_eq!(set(&lists.allow_v6), HashSet::from([doc(0x50)]));
    assert_eq!(set(&lists.block_v4), HashSet::from([0xc0a8_0132, 0x0101_0101]));
    assert_eq!(set(&lists.block_v6), HashSet::from([doc(0xdead)]));
    assert_eq!(lists.new_peer, Reputation::new(77));
    assert_eq!(lists.new_blocked, BlockedEntry::default());
    assert_eq!(lists.loaded, (2, 3));
}

#[test]
fn empty_config_loads_nothing() {
    let lists = load_config_lists(&[], &[], 0);
    assert_eq!(lists.loaded, (0, 0));
    assert!(lists.allow_v4.is_empty() && lists.block_v6.is_empty());
}
