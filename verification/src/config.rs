//! The allow- and blocklist: from the addresses in the configuration to the changes that
//! bring the tables in line with them.

use crate::addr::{
    bits_of, ipv4_bits, law_bits_spell_the_octets, source_of, IpAddr, Source,
};
use crate::filter::{Step, Table, XdpAction};
use crate::keys::{
    difference, distinct, is_difference, is_distinct, law_difference_is_of_members,
    law_distinct_keys_are_the_members, law_every_item_read_is_kept, present, readable, Key,
};
use crate::policy::{MAX_SCORE, MAX_TOKENS};
use crate::reputation::{BlockedEntry, Reputation};
use crate::tables::{driven, law_dialogue_processes_the_packet, Tables};
use vstd::prelude::*;

verus! {

/// The keys of the IPv4 addresses in a list, in order. An entry that is no address counts for
/// nothing.
pub open spec fn v4_keys(list: Seq<Option<IpAddr>>) -> Seq<u32>
    decreases list.len(),
{
    if list.len() == 0 {
        Seq::empty()
    } else {
        match list.last() {
            Some(IpAddr::V4(octets)) => v4_keys(list.drop_last()).push(bits_of(octets@) as u32),
            _ => v4_keys(list.drop_last()),
        }
    }
}

/// The keys of the IPv6 addresses in a list, in order.
pub open spec fn v6_keys(list: Seq<Option<IpAddr>>) -> Seq<[u8; 16]>
    decreases list.len(),
{
    if list.len() == 0 {
        Seq::empty()
    } else {
        match list.last() {
            Some(IpAddr::V6(octets)) => v6_keys(list.drop_last()).push(octets),
            _ => v6_keys(list.drop_last()),
        }
    }
}

/// Sorts a list of addresses into the keys of the two families. `None` stands for an entry
/// that was not an address.
pub fn partition_list(list: &[Option<IpAddr>]) -> (keys: (Vec<u32>, Vec<[u8; 16]>))
    ensures
        keys.0@ == v4_keys(list@),
        keys.1@ == v6_keys(list@),
        keys.0@.len() + keys.1@.len() <= list@.len(),
{
    let mut v4: Vec<u32> = Vec::new();
    let mut v6: Vec<[u8; 16]> = Vec::new();
    let mut i: usize = 0;
    while i < list.len()
        invariant
            0 <= i <= list@.len(),
            v4@ == v4_keys(list@.take(i as int)),
            v6@ == v6_keys(list@.take(i as int)),
            v4@.len() + v6@.len() <= i,
        decreases list@.len() - i,
    {
        proof {
            assert(list@.take(i + 1).drop_last() =~= list@.take(i as int));
        }
        match list[i] {
            Some(IpAddr::V4(octets)) => v4.push(ipv4_bits(octets)),
            Some(IpAddr::V6(octets)) => v6.push(octets),
            None => {},
        }
        i = i + 1;
    }
    proof {
        assert(list@.take(list@.len() as int) =~= list@);
    }
    (v4, v6)
}

/// The changes that bring the keys of a table in line with a list.
pub struct SyncPlan<K> {
    /// Keys to delete, first.
    pub removals: Vec<K>,
    /// Keys to insert with a fresh value, after that.
    pub insertions: Vec<K>,
}

/// What is deleted and inserted: the keys that are in the table but no longer wanted, and
/// those wanted that are not in it; each once.
pub open spec fn is_sync<K>(
    removals: Seq<K>,
    insertions: Seq<K>,
    current: Seq<K>,
    desired: Seq<K>,
) -> bool {
    &&& is_difference(removals, current, desired)
    &&& is_difference(insertions, desired, current)
}

/// Compares the keys read from a table, some of which may have failed to be read, with the
/// `desired` ones. A key in both is in neither part of the plan.
pub fn sync_keys<K: Key>(listed: &[Option<K>], desired: &[K]) -> (plan: SyncPlan<K>)
    ensures
        is_sync(plan.removals@, plan.insertions@, present(listed@), desired@),
{
    let current: Vec<K> = readable(listed);
    let removals = difference(current.as_slice(), desired);
    let insertions = difference(desired, current.as_slice());
    SyncPlan { removals, insertions }
}

/// The lists of a configuration as the tables are to hold them.
pub struct ConfigLists {
    pub allow_v4: Vec<u32>,
    pub allow_v6: Vec<[u8; 16]>,
    pub block_v4: Vec<u32>,
    pub block_v6: Vec<[u8; 16]>,
    /// The value of a peer that enters the allowlist.
    pub new_peer: Reputation,
    /// The value of a source that enters the blocklist.
    pub new_blocked: BlockedEntry,
    /// How many addresses are allowed and how many blocked.
    pub loaded: (usize, usize),
}

/// Prepares the lists of a configuration read at `now`. Each address counts once, however
/// often it is listed.
pub fn load_config_lists(
    allowlist: &[Option<IpAddr>],
    blocklist: &[Option<IpAddr>],
    now: u64,
) -> (lists: ConfigLists)
    ensures
        is_distinct(lists.allow_v4@, v4_keys(allowlist@)),
        is_distinct(lists.allow_v6@, v6_keys(allowlist@)),
        is_distinct(lists.block_v4@, v4_keys(blocklist@)),
        is_distinct(lists.block_v6@, v6_keys(blocklist@)),
        lists.new_peer.bucket.tokens == MAX_TOKENS,
        lists.new_peer.bucket.last_refill_ns == now,
        lists.new_peer.score == MAX_SCORE,
        lists.new_blocked == (BlockedEntry { hits: 0, last_seen_ns: 0 }),
        lists.loaded.0 == lists.allow_v4@.len() + lists.allow_v6@.len(),
        lists.loaded.1 == lists.block_v4@.len() + lists.block_v6@.len(),
{
    let (allow_v4, allow_v6) = partition_list(allowlist);
    let (block_v4, block_v6) = partition_list(blocklist);
    let allow_v4: Vec<u32> = distinct(allow_v4.as_slice());
    let allow_v6: Vec<[u8; 16]> = distinct(allow_v6.as_slice());
    let block_v4: Vec<u32> = distinct(block_v4.as_slice());
    let block_v6: Vec<[u8; 16]> = distinct(block_v6.as_slice());
    assert(allowlist@.len() == allowlist.len() && blocklist@.len() == blocklist.len());
    let loaded: (usize, usize) = (
        allow_v4.len() + allow_v6.len(),
        block_v4.len() + block_v6.len(),
    );
    ConfigLists {
        allow_v4,
        allow_v6,
        block_v4,
        block_v6,
        new_peer: Reputation::new(now),
        new_blocked: BlockedEntry::default(),
        loaded,
    }
}

/// A table after `removals` were deleted from it, one after the other.
pub open spec fn without_keys<K, V>(table: Map<K, V>, removals: Seq<K>) -> Map<K, V>
    decreases removals.len(),
{
    if removals.len() == 0 {
        table
    } else {
        without_keys(table, removals.drop_last()).remove(removals.last())
    }
}

/// A table after `insertions` were inserted with `value`, one after the other.
pub open spec fn with_keys<K, V>(table: Map<K, V>, insertions: Seq<K>, value: V) -> Map<K, V>
    decreases insertions.len(),
{
    if insertions.len() == 0 {
        table
    } else {
        with_keys(table, insertions.drop_last(), value).insert(insertions.last(), value)
    }
}

/// A table after a plan was carried out on it.
pub open spec fn synced<K, V>(
    table: Map<K, V>,
    removals: Seq<K>,
    insertions: Seq<K>,
    value: V,
) -> Map<K, V> {
    with_keys(without_keys(table, removals), insertions, value)
}

proof fn lemma_last_or_earlier<K>(keys: Seq<K>, key: K)
    requires
        keys.len() > 0,
    ensures
        keys.contains(key) <==> keys.drop_last().contains(key) || keys.last() == key,
{
    if keys.contains(key) {
        let i = choose|i: int| 0 <= i < keys.len() && keys[i] == key;
        if i < keys.len() - 1 {
            assert(keys.drop_last()[i] == key);
        }
    }
    if keys.drop_last().contains(key) {
        let i = choose|i: int| 0 <= i < keys.drop_last().len() && keys.drop_last()[i] == key;
        assert(keys[i] == key);
    }
    if keys.last() == key {
        assert(keys[keys.len() - 1] == key);
    }
}

proof fn lemma_without_keys<K, V>(table: Map<K, V>, removals: Seq<K>, key: K)
    ensures
        without_keys(table, removals).contains_key(key) <==> table.contains_key(key)
            && !removals.contains(key),
        without_keys(table, removals).contains_key(key) ==> without_keys(table, removals)[key]
            == table[key],
    decreases removals.len(),
{
    if removals.len() > 0 {
        lemma_without_keys(table, removals.drop_last(), key);
        lemma_last_or_earlier(removals, key);
    }
}

proof fn lemma_with_keys<K, V>(table: Map<K, V>, insertions: Seq<K>, value: V, key: K)
    ensures
        with_keys(table, insertions, value).contains_key(key) <==> table.contains_key(key)
            || insertions.contains(key),
        insertions.contains(key) ==> with_keys(table, insertions, value)[key] == value,
        !insertions.contains(key) && table.contains_key(key) ==> with_keys(
            table,
            insertions,
            value,
        )[key] == table[key],
    decreases insertions.len(),
{
    if insertions.len() > 0 {
        lemma_with_keys(table, insertions.drop_last(), value, key);
        lemma_last_or_earlier(insertions, key);
    }
}

/// A reload reconciles a table with a list. When all keys of the table could be read, it
/// holds afterwards exactly the listed keys: those that were there keep their value, a peer
/// its reputation, and those that were not get the fresh one.
pub proof fn law_sync_reconciles<K, V>(
    table: Map<K, V>,
    current: Seq<K>,
    desired: Seq<K>,
    removals: Seq<K>,
    insertions: Seq<K>,
    value: V,
    key: K,
)
    requires
        forall|k: K| #[trigger] current.contains(k) <==> table.contains_key(k),
        is_sync(removals, insertions, current, desired),
    ensures
        synced(table, removals, insertions, value).contains_key(key) <==> desired.contains(key),
        desired.contains(key) ==> synced(table, removals, insertions, value)[key] == (
        if table.contains_key(key) {
            table[key]
        } else {
            value
        }),
{
    lemma_without_keys(table, removals, key);
    lemma_with_keys(without_keys(table, removals), insertions, value, key);
    assert(current.contains(key) <==> table.contains_key(key));
    assert(removals.contains(key) <==> current.contains(key) && !desired.contains(key));
    assert(insertions.contains(key) <==> desired.contains(key) && !current.contains(key));
}

/// A reload of a list that the table already holds changes nothing.
pub proof fn law_sync_of_unchanged_list_is_empty<K>(
    current: Seq<K>,
    desired: Seq<K>,
    removals: Seq<K>,
    insertions: Seq<K>,
)
    requires
        forall|k: K| #[trigger] current.contains(k) <==> desired.contains(k),
        is_sync(removals, insertions, current, desired),
    ensures
        removals.len() == 0,
        insertions.len() == 0,
{
    if removals.len() > 0 {
        assert(removals.contains(removals[0]));
        assert(current.contains(removals[0]));
    }
    if insertions.len() > 0 {
        assert(insertions.contains(insertions[0]));
        assert(current.contains(insertions[0]) <==> desired.contains(insertions[0]));
    }
}

/// Whether a list names the address that is held under `source`.
pub open spec fn lists(list: Seq<Option<IpAddr>>, source: Source) -> bool {
    exists|i: int|
        0 <= i < list.len() && (#[trigger] list[i] matches Some(ip) && source_of(ip) == source)
}

/// The keys of a list are those of the addresses it names, each in the family of its address.
pub proof fn law_keys_are_the_listed_addresses(list: Seq<Option<IpAddr>>)
    ensures
        forall|key: u32| #[trigger] v4_keys(list).contains(key) <==> lists(list, Source::V4(key)),
        forall|key: [u8; 16]| #[trigger]
            v6_keys(list).contains(key) <==> lists(list, Source::V6(key)),
    decreases list.len(),
{
    if list.len() > 0 {
        let rest = list.drop_last();
        law_keys_are_the_listed_addresses(rest);
        assert forall|source: Source| #[trigger]
            lists(list, source) <==> lists(rest, source) || (list.last() matches Some(ip)
                && source_of(ip) == source) by {
            if lists(list, source) {
                let i = choose|i: int|
                    0 <= i < list.len() && (#[trigger] list[i] matches Some(ip) && source_of(ip)
                        == source);
                if i < rest.len() {
                    assert(rest[i] == list[i]);
                }
            }
            if lists(rest, source) {
                let i = choose|i: int|
                    0 <= i < rest.len() && (#[trigger] rest[i] matches Some(ip) && source_of(ip)
                        == source);
                assert(list[i] == rest[i]);
            }
            if list.last() matches Some(ip) && source_of(ip) == source {
                assert(list[list.len() - 1] == list.last());
            }
        }
        assert forall|key: u32| #[trigger] v4_keys(list).contains(key) <==> lists(
            list,
            Source::V4(key),
        ) by {
            assert(lists(list, Source::V4(key)) <==> lists(rest, Source::V4(key)) || (
            list.last() matches Some(ip) && source_of(ip) == Source::V4(key)));
            assert(v4_keys(rest).contains(key) <==> lists(rest, Source::V4(key)));
            if v4_keys(list).len() > 0 {
                lemma_last_or_earlier(v4_keys(list), key);
            }
            if v4_keys(list) != v4_keys(rest) {
                assert(v4_keys(list).drop_last() =~= v4_keys(rest));
            }
        }
        assert forall|key: [u8; 16]| #[trigger] v6_keys(list).contains(key) <==> lists(
            list,
            Source::V6(key),
        ) by {
            assert(lists(list, Source::V6(key)) <==> lists(rest, Source::V6(key)) || (
            list.last() matches Some(ip) && source_of(ip) == Source::V6(key)));
            assert(v6_keys(rest).contains(key) <==> lists(rest, Source::V6(key)));
            if v6_keys(list).len() > 0 {
                lemma_last_or_earlier(v6_keys(list), key);
            }
            if v6_keys(list) != v6_keys(rest) {
                assert(v6_keys(list).drop_last() =~= v6_keys(rest));
            }
        }
    }
}

/// The part of a table that holds the IPv4 sources.
pub open spec fn v4_part<V>(table: Map<Source, V>) -> Map<u32, V> {
    Map::new(|key: u32| table.contains_key(Source::V4(key)), |key: u32| table[Source::V4(key)])
}

/// The part of a table that holds the IPv6 sources.
pub open spec fn v6_part<V>(table: Map<Source, V>) -> Map<[u8; 16], V> {
    Map::new(
        |key: [u8; 16]| table.contains_key(Source::V6(key)),
        |key: [u8; 16]| table[Source::V6(key)],
    )
}

/// Whether `after` is what a reload of `list` makes of `part`: the keys of `part` were read in
/// full, compared with the `desired` ones, and the plan was carried out.
pub open spec fn reloaded<K, V>(
    part: Map<K, V>,
    desired: Seq<K>,
    value: V,
    after: Map<K, V>,
) -> bool {
    exists|current: Seq<K>, removals: Seq<K>, insertions: Seq<K>|
        {
            &&& forall|k: K| #[trigger] current.contains(k) <==> part.contains_key(k)
            &&& #[trigger] is_sync(removals, insertions, current, desired)
            &&& after == synced(part, removals, insertions, value)
        }
}

proof fn lemma_reloaded<K, V>(
    part: Map<K, V>,
    desired: Seq<K>,
    value: V,
    after: Map<K, V>,
    key: K,
)
    requires
        reloaded(part, desired, value, after),
    ensures
        after.contains_key(key) <==> desired.contains(key),
        desired.contains(key) ==> after[key] == (if part.contains_key(key) {
            part[key]
        } else {
            value
        }),
{
    let (current, removals, insertions) = choose|
        current: Seq<K>,
        removals: Seq<K>,
        insertions: Seq<K>,
    |
        {
            &&& forall|k: K| #[trigger] current.contains(k) <==> part.contains_key(k)
            &&& #[trigger] is_sync(removals, insertions, current, desired)
            &&& after == synced(part, removals, insertions, value)
        };
    law_sync_reconciles(part, current, desired, removals, insertions, value, key);
}

/// After a reload of both families a table holds exactly the sources whose address is listed.
/// A source that was in the table keeps its entry; one that was not gets the fresh value.
pub proof fn law_reload_follows_the_list<V>(
    table: Map<Source, V>,
    list: Seq<Option<IpAddr>>,
    desired_v4: Seq<u32>,
    desired_v6: Seq<[u8; 16]>,
    value: V,
    after: Map<Source, V>,
    source: Source,
)
    requires
        is_distinct(desired_v4, v4_keys(list)),
        is_distinct(desired_v6, v6_keys(list)),
        reloaded(v4_part(table), desired_v4, value, v4_part(after)),
        reloaded(v6_part(table), desired_v6, value, v6_part(after)),
    ensures
        after.contains_key(source) <==> lists(list, source),
        lists(list, source) ==> after[source] == (if table.contains_key(source) {
            table[source]
        } else {
            value
        }),
{
    law_keys_are_the_listed_addresses(list);
    match source {
        Source::V4(key) => {
            lemma_reloaded(v4_part(table), desired_v4, value, v4_part(after), key);
            assert(v4_part(after).contains_key(key) <==> after.contains_key(source));
            assert(v4_part(table).contains_key(key) <==> table.contains_key(source));
            assert(desired_v4.contains(key) <==> v4_keys(list).contains(key));
        },
        Source::V6(key) => {
            lemma_reloaded(v6_part(table), desired_v6, value, v6_part(after), key);
            assert(v6_part(after).contains_key(key) <==> after.contains_key(source));
            assert(v6_part(table).contains_key(key) <==> table.contains_key(source));
            assert(desired_v6.contains(key) <==> v6_keys(list).contains(key));
        },
    }
}

/// After a reload of the blocklist every packet of a listed address is dropped, whatever the
/// dialogue finds in the other tables.
pub proof fn law_blocklisted_address_is_dropped(
    tables: Tables,
    list: Seq<Option<IpAddr>>,
    desired_v4: Seq<u32>,
    desired_v6: Seq<[u8; 16]>,
    value: BlockedEntry,
    after: Tables,
    source: Source,
    now: u64,
)
    requires
        is_distinct(desired_v4, v4_keys(list)),
        is_distinct(desired_v6, v6_keys(list)),
        reloaded(v4_part(tables.blocked), desired_v4, value, v4_part(after.blocked)),
        reloaded(v6_part(tables.blocked), desired_v6, value, v6_part(after.blocked)),
        lists(list, source),
    ensures
        driven(after, Step::Lookup(Table::Blocked, source), now).1 == XdpAction::Drop,
{
    law_dialogue_processes_the_packet(after, source, now);
    law_reload_follows_the_list(
        tables.blocked,
        list,
        desired_v4,
        desired_v6,
        value,
        after.blocked,
        source,
    );
}

/// The plan for the keys read of a table. A key is deleted exactly when it was read, at whatever
/// position, and is not wanted; it is inserted exactly when it is wanted and was not read. So a
/// key that is wanted and was read is left alone. Neither part names a key twice.
pub proof fn law_plan_follows_what_was_read<K>(
    removals: Seq<K>,
    insertions: Seq<K>,
    listed: Seq<Option<K>>,
    desired: Seq<K>,
    key: K,
)
    requires
        is_sync(removals, insertions, present(listed), desired),
    ensures
        removals.contains(key) <==> (exists|i: int|
            0 <= i < listed.len() && #[trigger] listed[i] == Some(key)) && !(exists|i: int|
            0 <= i < desired.len() && #[trigger] desired[i] == key),
        insertions.contains(key) <==> (exists|i: int|
            0 <= i < desired.len() && #[trigger] desired[i] == key) && !(exists|i: int|
            0 <= i < listed.len() && #[trigger] listed[i] == Some(key)),
        forall|i: int, j: int| 0 <= i < j < removals.len() ==> removals[i] != removals[j],
        forall|i: int, j: int| 0 <= i < j < insertions.len() ==> insertions[i] != insertions[j],
{
    law_every_item_read_is_kept(listed, key);
    law_difference_is_of_members(removals, present(listed), desired, key);
    law_difference_is_of_members(insertions, desired, present(listed), key);
    assert(desired.contains(key) <==> exists|i: int|
        0 <= i < desired.len() && #[trigger] desired[i] == key);
    assert(removals.contains(key) <==> present(listed).contains(key) && !desired.contains(key));
    assert(insertions.contains(key) <==> desired.contains(key) && !present(listed).contains(key));
}

/// A list is sorted entry by entry: the keys of two stretches of it are those of the one and
/// then those of the other, in either family.
pub proof fn law_lists_are_sorted_entry_by_entry(
    first: Seq<Option<IpAddr>>,
    second: Seq<Option<IpAddr>>,
)
    ensures
        v4_keys(first + second) == v4_keys(first) + v4_keys(second),
        v6_keys(first + second) == v6_keys(first) + v6_keys(second),
    decreases second.len(),
{
    if second.len() == 0 {
        assert(first + second =~= first);
        assert(v4_keys(first) + v4_keys(second) =~= v4_keys(first));
        assert(v6_keys(first) + v6_keys(second) =~= v6_keys(first));
    } else {
        law_lists_are_sorted_entry_by_entry(first, second.drop_last());
        assert((first + second).drop_last() =~= first + second.drop_last());
        assert(v4_keys(first + second) =~= v4_keys(first) + v4_keys(second));
        assert(v6_keys(first + second) =~= v6_keys(first) + v6_keys(second));
    }
}

/// An entry gives one key to its own family and none to the other: an IPv4 address the number
/// whose base-256 digits are its octets, an IPv6 address its octets. An entry that is no address
/// gives none.
pub proof fn law_an_entry_gives_its_own_key(entry: Option<IpAddr>)
    ensures
        match entry {
            Some(IpAddr::V4(octets)) => v6_keys(seq![entry]).len() == 0 && v4_keys(
                seq![entry],
            ).len() == 1 && v4_keys(seq![entry])[0] / 0x100_0000 == octets@[0] && v4_keys(
                seq![entry],
            )[0] / 0x1_0000 % 0x100 == octets@[1] && v4_keys(seq![entry])[0] / 0x100 % 0x100
                == octets@[2] && v4_keys(seq![entry])[0] % 0x100 == octets@[3],
            Some(IpAddr::V6(octets)) => v4_keys(seq![entry]).len() == 0 && v6_keys(seq![entry])
                == seq![octets],
            None => v4_keys(seq![entry]).len() == 0 && v6_keys(seq![entry]).len() == 0,
        },
{
    reveal_with_fuel(v4_keys, 2);
    reveal_with_fuel(v6_keys, 2);
    if let Some(IpAddr::V4(octets)) = entry {
        law_bits_spell_the_octets(octets@);
    }
    assert(seq![entry].drop_last() =~= Seq::<Option<IpAddr>>::empty());
}

/// An address listed anywhere is among the keys made of its list, and a key stands for a listed
/// address; no key comes twice however often its address is listed.
pub proof fn law_listed_addresses_are_held_once(
    list: Seq<Option<IpAddr>>,
    held_v4: Seq<u32>,
    held_v6: Seq<[u8; 16]>,
    key_v4: u32,
    key_v6: [u8; 16],
)
    requires
        is_distinct(held_v4, v4_keys(list)),
        is_distinct(held_v6, v6_keys(list)),
    ensures
        held_v4.contains(key_v4) <==> exists|i: int|
            0 <= i < list.len() && (#[trigger] list[i] matches Some(IpAddr::V4(octets)) && key_v4
                == octets@[0] * 0x100_0000 + octets@[1] * 0x1_0000 + octets@[2] * 0x100
                + octets@[3]),
        held_v6.contains(key_v6) <==> exists|i: int|
            0 <= i < list.len() && #[trigger] list[i] == Some(IpAddr::V6(key_v6)),
        forall|i: int, j: int| 0 <= i < j < held_v4.len() ==> held_v4[i] != held_v4[j],
        forall|i: int, j: int| 0 <= i < j < held_v6.len() ==> held_v6[i] != held_v6[j],
{
    law_keys_are_the_listed_addresses(list);
    law_distinct_keys_are_the_members(held_v4, v4_keys(list), key_v4);
    law_distinct_keys_are_the_members(held_v6, v6_keys(list), key_v6);
    assert(held_v4.contains(key_v4) <==> v4_keys(list).contains(key_v4));
    assert(held_v6.contains(key_v6) <==> v6_keys(list).contains(key_v6));
    if lists(list, Source::V4(key_v4)) {
        let i = choose|i: int|
            0 <= i < list.len() && (#[trigger] list[i] matches Some(ip) && source_of(ip)
                == Source::V4(key_v4));
        assert(list[i] is Some);
    }
    if lists(list, Source::V6(key_v6)) {
        let i = choose|i: int|
            0 <= i < list.len() && (#[trigger] list[i] matches Some(ip) && source_of(ip)
                == Source::V6(key_v6));
        assert(list[i] == Some(IpAddr::V6(key_v6)));
    }
}

} // verus!
