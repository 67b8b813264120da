//! Lists of keys read as sets.

use vstd::array::axiom_array_ext_equal;
use vstd::prelude::*;

verus! {

/// A key that can be told from another.
pub trait Key: Copy {
    fn same(&self, other: &Self) -> (equal: bool)
        ensures
            equal == (*self == *other),
    ;
}

impl Key for u32 {
    fn same(&self, other: &Self) -> (equal: bool) {
        *self == *other
    }
}

impl Key for [u8; 16] {
    fn same(&self, other: &Self) -> (equal: bool) {
        let mut i: usize = 0;
        while i < 16
            invariant
                0 <= i <= 16,
                forall|j: int| 0 <= j < i ==> self[j] == other[j],
            decreases 16 - i,
        {
            if self[i] != other[i] {
                return false;
            }
            i = i + 1;
        }
        proof {
            broadcast use axiom_array_ext_equal;

            assert(*self =~= *other);
        }
        true
    }
}

/// The items that could be read, in order.
pub open spec fn present<T>(items: Seq<Option<T>>) -> Seq<T>
    decreases items.len(),
{
    if items.len() == 0 {
        Seq::empty()
    } else {
        match items.last() {
            Some(item) => present(items.drop_last()).push(item),
            None => present(items.drop_last()),
        }
    }
}

/// Collects the items that could be read.
pub fn readable<T: Copy>(items: &[Option<T>]) -> (read: Vec<T>)
    ensures
        read@ == present(items@),
{
    let mut read: Vec<T> = Vec::new();
    let mut i: usize = 0;
    while i < items.len()
        invariant
            0 <= i <= items@.len(),
            read@ == present(items@.take(i as int)),
        decreases items@.len() - i,
    {
        proof {
            assert(items@.take(i + 1).drop_last() =~= items@.take(i as int));
        }
        if let Some(item) = items[i] {
            read.push(item);
        }
        i = i + 1;
    }
    proof {
        assert(items@.take(items@.len() as int) =~= items@);
    }
    read
}

/// Whether `key` is among `items`.
pub fn holds<K: Key>(items: &[K], key: &K) -> (found: bool)
    ensures
        found == items@.contains(*key),
{
    let mut i: usize = 0;
    while i < items.len()
        invariant
            0 <= i <= items@.len(),
            forall|j: int| 0 <= j < i ==> items@[j] != *key,
        decreases items@.len() - i,
    {
        if items[i].same(key) {
            return true;
        }
        i = i + 1;
    }
    false
}

/// `keys` holds, each once, exactly the keys of `items` that are not in `without`.
pub open spec fn is_difference<K>(keys: Seq<K>, items: Seq<K>, without: Seq<K>) -> bool {
    &&& keys.no_duplicates()
    &&& forall|k: K| #[trigger]
        keys.contains(k) <==> items.contains(k) && !without.contains(k)
}

/// `keys` holds, each once, exactly the keys of `items`.
pub open spec fn is_distinct<K>(keys: Seq<K>, items: Seq<K>) -> bool {
    &&& keys.no_duplicates()
    &&& forall|k: K| #[trigger] keys.contains(k) <==> items.contains(k)
}

/// The keys of `items` that are not in `without`, each once.
pub fn difference<K: Key>(items: &[K], without: &[K]) -> (keys: Vec<K>)
    ensures
        is_difference(keys@, items@, without@),
        keys@.len() <= items@.len(),
{
    let mut keys: Vec<K> = Vec::new();
    let mut i: usize = 0;
    while i < items.len()
        invariant
            0 <= i <= items@.len(),
            keys@.len() <= i,
            is_difference(keys@, items@.take(i as int), without@),
        decreases items@.len() - i,
    {
        let key = items[i];
        let ghost before = keys@;
        let ghost seen = items@.take(i as int);
        let fresh = !holds(without, &key) && !holds(keys.as_slice(), &key);
        if fresh {
            keys.push(key);
        }
        proof {
            let now_seen = items@.take(i + 1);
            assert(now_seen =~= seen.push(key));
            assert forall|k: K| #[trigger] keys@.contains(k) implies now_seen.contains(k)
                && !without@.contains(k) by {
                let j = choose|j: int| 0 <= j < keys@.len() && keys@[j] == k;
                if j < before.len() {
                    assert(before[j] == k);
                    assert(before.contains(k));
                    let p = choose|p: int| 0 <= p < seen.len() && seen[p] == k;
                    assert(now_seen[p] == k);
                } else {
                    assert(now_seen[i as int] == k);
                }
            }
            assert forall|k: K| now_seen.contains(k) && !without@.contains(k) implies
                #[trigger] keys@.contains(k) by {
                let p = choose|p: int| 0 <= p < now_seen.len() && now_seen[p] == k;
                if p < i {
                    assert(seen[p] == k);
                    assert(before.contains(k));
                    let j = choose|j: int| 0 <= j < before.len() && before[j] == k;
                    assert(keys@[j] == k);
                } else if fresh {
                    assert(keys@[before.len() as int] == k);
                }
            }
            if fresh {
                assert forall|a: int, b: int|
                    0 <= a < keys@.len() && 0 <= b < keys@.len() && a != b implies keys@[a]
                    != keys@[b] by {
                    if a == before.len() {
                        assert(before.contains(keys@[b]));
                    } else if b == before.len() {
                        assert(before.contains(keys@[a]));
                    }
                }
            }
        }
        i = i + 1;
    }
    proof {
        assert(items@.take(items@.len() as int) =~= items@);
    }
    keys
}

/// The keys of `items`, each once.
pub fn distinct<K: Key>(items: &[K]) -> (keys: Vec<K>)
    ensures
        is_distinct(keys@, items@),
        keys@.len() <= items@.len(),
{
    let none: [K; 0] = [];
    let keys = difference(items, &none);
    proof {
        assert forall|k: K| #[trigger] keys@.contains(k) <==> items@.contains(k) by {
            assert(!none@.contains(k));
        }
    }
    keys
}

/// What could be read, at whatever position it stands, is kept, and nothing else is.
pub proof fn law_every_item_read_is_kept<T>(items: Seq<Option<T>>, item: T)
    ensures
        present(items).contains(item) <==> exists|i: int|
            0 <= i < items.len() && #[trigger] items[i] == Some(item),
    decreases items.len(),
{
    if items.len() > 0 {
        let rest = items.drop_last();
        law_every_item_read_is_kept(rest, item);
        let kept = present(items);
        if kept.contains(item) {
            let j = choose|j: int| 0 <= j < kept.len() && kept[j] == item;
            if j < present(rest).len() {
                assert(present(rest)[j] == item);
                let i = choose|i: int| 0 <= i < rest.len() && #[trigger] rest[i] == Some(item);
                assert(items[i] == Some(item));
            } else {
                assert(items[items.len() - 1] == Some(item));
            }
        }
        if exists|i: int| 0 <= i < items.len() && #[trigger] items[i] == Some(item) {
            let i = choose|i: int| 0 <= i < items.len() && #[trigger] items[i] == Some(item);
            if i < rest.len() {
                assert(rest[i] == Some(item));
                let j = choose|j: int| 0 <= j < present(rest).len() && present(rest)[j] == item;
                assert(kept[j] == item);
            } else {
                assert(kept[kept.len() - 1] == item);
            }
        }
    }
}

/// The items kept are, in order and as often as they were read, those that were read: as many
/// as there are readable entries.
pub proof fn law_items_keep_their_order_and_number<T>(items: Seq<Option<T>>)
    ensures
        present(items) == items.filter(|item: Option<T>| item is Some).map_values(
            |item: Option<T>| item->0,
        ),
        present(items).len() == items.filter(|item: Option<T>| item is Some).len(),
    decreases items.len(),
{
    reveal(Seq::filter);
    if items.len() > 0 {
        law_items_keep_their_order_and_number(items.drop_last());
        let before = items.drop_last().filter(|item: Option<T>| item is Some);
        let after = items.filter(|item: Option<T>| item is Some);
        if items.last() is Some {
            assert(after == before.push(items.last()));
            assert(after.map_values(|item: Option<T>| item->0) =~= before.map_values(
                |item: Option<T>| item->0,
            ).push(items.last()->0));
        } else {
            assert(after == before);
        }
    }
}

/// What is read of two stretches is what is read of the one and then of the other.
pub proof fn law_stretches_are_read_apart<T>(first: Seq<Option<T>>, second: Seq<Option<T>>)
    ensures
        present(first + second) == present(first) + present(second),
    decreases second.len(),
{
    if second.len() == 0 {
        assert(first + second =~= first);
        assert(present(first) + present(second) =~= present(first));
    } else {
        law_stretches_are_read_apart(first, second.drop_last());
        assert((first + second).drop_last() =~= first + second.drop_last());
        assert(present(first + second) =~= present(first) + present(second));
    }
}

/// A difference repeats no key, and holds a key exactly when some item is that key and no
/// excluded one is.
pub proof fn law_difference_is_of_members<K>(
    keys: Seq<K>,
    items: Seq<K>,
    without: Seq<K>,
    key: K,
)
    requires
        is_difference(keys, items, without),
    ensures
        forall|i: int, j: int| 0 <= i < j < keys.len() ==> keys[i] != keys[j],
        (exists|i: int| 0 <= i < keys.len() && keys[i] == key) <==> (exists|i: int|
            0 <= i < items.len() && items[i] == key) && (forall|i: int|
            0 <= i < without.len() ==> without[i] != key),
{
    assert(keys.contains(key) <==> items.contains(key) && !without.contains(key));
}

/// Distinct keys repeat none, and hold a key exactly when some item is that key.
pub proof fn law_distinct_keys_are_the_members<K>(keys: Seq<K>, items: Seq<K>, key: K)
    requires
        is_distinct(keys, items),
    ensures
        forall|i: int, j: int| 0 <= i < j < keys.len() ==> keys[i] != keys[j],
        (exists|i: int| 0 <= i < keys.len() && keys[i] == key) <==> (exists|i: int|
            0 <= i < items.len() && items[i] == key),
{
    assert(keys.contains(key) <==> items.contains(key));
}

} // verus!
