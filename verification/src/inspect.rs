//! The snapshot of the state: records collected from what was read of the tables.

use crate::addr::{law_key_is_of_the_address, source_of, IpAddr, Source};
use crate::keys::{present, readable};
use crate::reputation::{BlockedEntry, Reputation};
use vstd::prelude::*;

verus! {

/// A peer on the allowlist.
#[derive(Clone, Copy, Debug, PartialEq, Eq)]
pub struct AllowedRecord {
    pub ip: IpAddr,
    pub score: u32,
    pub tokens: u32,
}

/// A source on the blocklist.
#[derive(Clone, Copy, Debug, PartialEq, Eq)]
pub struct BlockedRecord {
    pub ip: IpAddr,
    pub hits: u64,
    pub last_seen_ns: u64,
}

/// The packets counted for a source, over all processors.
#[derive(Clone, Copy, Debug, PartialEq, Eq)]
pub struct PacketCountRecord {
    pub ip: IpAddr,
    pub total: u64,
}

/// The whole snapshot.
pub struct InspectOutput {
    pub allowed: Vec<AllowedRecord>,
    pub blocked: Vec<BlockedRecord>,
    pub packet_counts: Vec<PacketCountRecord>,
    pub unknown_buckets: Vec<IpAddr>,
}

/// The entries of both families that could be read, IPv4 first, each in the order of its table.
pub open spec fn joined<V>(
    v4: Seq<Option<(u32, V)>>,
    v6: Seq<Option<([u8; 16], V)>>,
) -> Seq<(Source, V)> {
    present(v4).map_values(|entry: (u32, V)| (Source::V4(entry.0), entry.1)) + present(
        v6,
    ).map_values(|entry: ([u8; 16], V)| (Source::V6(entry.0), entry.1))
}

fn join<V: Copy>(v4: &[Option<(u32, V)>], v6: &[Option<([u8; 16], V)>]) -> (entries: Vec<
    (Source, V),
>)
    ensures
        entries@ == joined(v4@, v6@),
{
    let first = readable(v4);
    let second = readable(v6);
    let mut entries: Vec<(Source, V)> = Vec::new();
    let ghost head = first@.map_values(|entry: (u32, V)| (Source::V4(entry.0), entry.1));
    let ghost tail = second@.map_values(|entry: ([u8; 16], V)| (Source::V6(entry.0), entry.1));
    let mut i: usize = 0;
    while i < first.len()
        invariant
            0 <= i <= first@.len(),
            head == first@.map_values(|entry: (u32, V)| (Source::V4(entry.0), entry.1)),
            entries@ == head.take(i as int),
        decreases first@.len() - i,
    {
        let entry = first[i];
        entries.push((Source::V4(entry.0), entry.1));
        assert(entries@ =~= head.take(i + 1));
        i = i + 1;
    }
    assert(entries@ =~= head + tail.take(0));
    let mut j: usize = 0;
    while j < second.len()
        invariant
            0 <= j <= second@.len(),
            tail == second@.map_values(|entry: ([u8; 16], V)| (Source::V6(entry.0), entry.1)),
            entries@ == head + tail.take(j as int),
        decreases second@.len() - j,
    {
        let entry = second[j];
        entries.push((Source::V6(entry.0), entry.1));
        assert(entries@ =~= head + tail.take(j + 1));
        j = j + 1;
    }
    assert(tail.take(second@.len() as int) =~= tail);
    entries
}

/// Whether a record shows the reputation of an entry.
pub open spec fn shows_allowed(record: AllowedRecord, entry: (Source, Reputation)) -> bool {
    &&& source_of(record.ip) == entry.0
    &&& record.score == entry.1.score
    &&& record.tokens == entry.1.bucket.tokens
}

/// Whether a record shows the hits of an entry.
pub open spec fn shows_blocked(record: BlockedRecord, entry: (Source, BlockedEntry)) -> bool {
    &&& source_of(record.ip) == entry.0
    &&& record.hits == entry.1.hits
    &&& record.last_seen_ns == entry.1.last_seen_ns
}

/// Whether a record shows the total of an entry.
pub open spec fn shows_count(record: PacketCountRecord, entry: (Source, u64)) -> bool {
    &&& source_of(record.ip) == entry.0
    &&& record.total == entry.1
}

/// Records for the allowed peers that could be read.
pub fn collect_allowed(
    v4: &[Option<(u32, Reputation)>],
    v6: &[Option<([u8; 16], Reputation)>],
) -> (records: Vec<AllowedRecord>)
    ensures
        records@.len() == joined(v4@, v6@).len(),
        forall|i: int|
            0 <= i < records@.len() ==> shows_allowed(#[trigger] records@[i], joined(v4@, v6@)[i]),
{
    let entries = join(v4, v6);
    let mut records: Vec<AllowedRecord> = Vec::new();
    let mut i: usize = 0;
    while i < entries.len()
        invariant
            0 <= i <= entries@.len(),
            records@.len() == i,
            forall|j: int| 0 <= j < i ==> shows_allowed(#[trigger] records@[j], entries@[j]),
        decreases entries@.len() - i,
    {
        let (source, peer) = entries[i];
        records.push(
            AllowedRecord { ip: source.ip(), score: peer.score, tokens: peer.bucket.tokens },
        );
        i = i + 1;
    }
    records
}

/// Records for the blocked sources that could be read.
pub fn collect_blocked(
    v4: &[Option<(u32, BlockedEntry)>],
    v6: &[Option<([u8; 16], BlockedEntry)>],
) -> (records: Vec<BlockedRecord>)
    ensures
        records@.len() == joined(v4@, v6@).len(),
        forall|i: int|
            0 <= i < records@.len() ==> shows_blocked(#[trigger] records@[i], joined(v4@, v6@)[i]),
{
    let entries = join(v4, v6);
    let mut records: Vec<BlockedRecord> = Vec::new();
    let mut i: usize = 0;
    while i < entries.len()
        invariant
            0 <= i <= entries@.len(),
            records@.len() == i,
            forall|j: int| 0 <= j < i ==> shows_blocked(#[trigger] records@[j], entries@[j]),
        decreases entries@.len() - i,
    {
        let (source, entry) = entries[i];
        records.push(
            BlockedRecord {
                ip: source.ip(),
                hits: entry.hits,
                last_seen_ns: entry.last_seen_ns,
            },
        );
        i = i + 1;
    }
    records
}

/// The sum of the counts of all processors.
pub open spec fn sum_of(counts: Seq<u64>) -> nat
    decreases counts.len(),
{
    if counts.len() == 0 {
        0
    } else {
        sum_of(counts.drop_last()) + counts.last() as nat
    }
}

proof fn lemma_sum_grows(counts: Seq<u64>, n: int)
    requires
        0 <= n <= counts.len(),
    ensures
        sum_of(counts.take(n)) <= sum_of(counts),
    decreases counts.len() - n,
{
    if n == counts.len() {
        assert(counts.take(n) =~= counts);
    } else {
        lemma_sum_grows(counts, n + 1);
        assert(counts.take(n + 1).drop_last() =~= counts.take(n));
    }
}

/// Sums the counts of all processors, where the sum fits.
pub fn total(counts: &[u64]) -> (sum: Option<u64>)
    ensures
        sum == (if sum_of(counts@) <= u64::MAX {
            Some(sum_of(counts@) as u64)
        } else {
            None
        }),
{
    let mut sum: u64 = 0;
    let mut i: usize = 0;
    while i < counts.len()
        invariant
            0 <= i <= counts@.len(),
            sum == sum_of(counts@.take(i as int)),
        decreases counts@.len() - i,
    {
        proof {
            assert(counts@.take(i + 1).drop_last() =~= counts@.take(i as int));
            lemma_sum_grows(counts@, i + 1);
        }
        match sum.checked_add(counts[i]) {
            Some(next) => {
                sum = next;
            },
            None => {
                return None;
            },
        }
        i = i + 1;
    }
    assert(counts@.take(counts@.len() as int) =~= counts@);
    Some(sum)
}

/// The counts of every source sum to a number that fits.
pub open spec fn sums_fit<K>(table: Seq<Option<(K, Vec<u64>)>>) -> bool {
    forall|i: int|
        0 <= i < table.len() ==> (#[trigger] table[i] matches Some(entry) ==> sum_of(entry.1@)
            <= u64::MAX)
}

/// The table with the counts of each source summed.
pub open spec fn summed<K>(table: Seq<Option<(K, Vec<u64>)>>) -> Seq<Option<(K, u64)>> {
    table.map_values(
        |entry: Option<(K, Vec<u64>)>|
            match entry {
                Some(found) => Some((found.0, sum_of(found.1@) as u64)),
                None => None,
            },
    )
}

fn sum_all<K: Copy>(table: &[Option<(K, Vec<u64>)>]) -> (sums: Vec<Option<(K, u64)>>)
    requires
        sums_fit(table@),
    ensures
        sums@ == summed(table@),
{
    let mut sums: Vec<Option<(K, u64)>> = Vec::new();
    let mut i: usize = 0;
    while i < table.len()
        invariant
            0 <= i <= table@.len(),
            sums_fit(table@),
            sums@ == summed(table@).take(i as int),
        decreases table@.len() - i,
    {
        let entry = &table[i];
        match entry {
            Some(found) => {
                let sum = total(found.1.as_slice());
                match sum {
                    Some(sum) => sums.push(Some((found.0, sum))),
                    None => {
                        assert(table@[i as int] == Some(*found));
                    },
                }
            },
            None => sums.push(None),
        }
        assert(sums@ =~= summed(table@).take(i + 1));
        i = i + 1;
    }
    assert(summed(table@).take(table@.len() as int) =~= summed(table@));
    sums
}

/// Records for the packet counts that could be read, summed over all processors.
pub fn collect_counts(
    v4: &[Option<(u32, Vec<u64>)>],
    v6: &[Option<([u8; 16], Vec<u64>)>],
) -> (records: Vec<PacketCountRecord>)
    requires
        sums_fit(v4@),
        sums_fit(v6@),
    ensures
        records@.len() == joined(summed(v4@), summed(v6@)).len(),
        forall|i: int|
            0 <= i < records@.len() ==> shows_count(
                #[trigger] records@[i],
                joined(summed(v4@), summed(v6@))[i],
            ),
{
    let sums_v4 = sum_all(v4);
    let sums_v6 = sum_all(v6);
    let entries = join(sums_v4.as_slice(), sums_v6.as_slice());
    let mut records: Vec<PacketCountRecord> = Vec::new();
    let mut i: usize = 0;
    while i < entries.len()
        invariant
            0 <= i <= entries@.len(),
            records@.len() == i,
            forall|j: int| 0 <= j < i ==> shows_count(#[trigger] records@[j], entries@[j]),
        decreases entries@.len() - i,
    {
        let (source, sum) = entries[i];
        records.push(PacketCountRecord { ip: source.ip(), total: sum });
        i = i + 1;
    }
    records
}

/// The keys of both families that could be read, IPv4 first.
pub open spec fn joined_keys(v4: Seq<Option<u32>>, v6: Seq<Option<[u8; 16]>>) -> Seq<Source> {
    present(v4).map_values(|key: u32| Source::V4(key)) + present(v6).map_values(
        |key: [u8; 16]| Source::V6(key),
    )
}

/// Addresses of the unknown sources whose key could be read.
pub fn collect_unknown(v4: &[Option<u32>], v6: &[Option<[u8; 16]>]) -> (ips: Vec<IpAddr>)
    ensures
        ips@.len() == joined_keys(v4@, v6@).len(),
        forall|i: int|
            0 <= i < ips@.len() ==> source_of(#[trigger] ips@[i]) == joined_keys(v4@, v6@)[i],
{
    let first = readable(v4);
    let second = readable(v6);
    let ghost keys = joined_keys(v4@, v6@);
    let mut ips: Vec<IpAddr> = Vec::new();
    let mut i: usize = 0;
    while i < first.len()
        invariant
            0 <= i <= first@.len(),
            first@ == present(v4@),
            keys == joined_keys(v4@, v6@),
            ips@.len() == i,
            forall|j: int| 0 <= j < i ==> source_of(#[trigger] ips@[j]) == keys[j],
        decreases first@.len() - i,
    {
        ips.push(Source::V4(first[i]).ip());
        i = i + 1;
    }
    let mut k: usize = 0;
    while k < second.len()
        invariant
            0 <= k <= second@.len(),
            first@ == present(v4@),
            second@ == present(v6@),
            keys == joined_keys(v4@, v6@),
            ips@.len() == first@.len() + k,
            forall|j: int| 0 <= j < ips@.len() ==> source_of(#[trigger] ips@[j]) == keys[j],
        decreases second@.len() - k,
    {
        ips.push(Source::V6(second[k]).ip());
        k = k + 1;
    }
    ips
}

/// What was read from the tables, entry by entry; `None` stands for an entry that could not
/// be read.
pub struct TableDump {
    pub allowed_v4: Vec<Option<(u32, Reputation)>>,
    pub allowed_v6: Vec<Option<([u8; 16], Reputation)>>,
    pub blocked_v4: Vec<Option<(u32, BlockedEntry)>>,
    pub blocked_v6: Vec<Option<([u8; 16], BlockedEntry)>>,
    /// Packet counts, one per processor.
    pub pkt_counts_v4: Vec<Option<(u32, Vec<u64>)>>,
    pub pkt_counts_v6: Vec<Option<([u8; 16], Vec<u64>)>>,
    pub unknown_v4: Vec<Option<u32>>,
    pub unknown_v6: Vec<Option<[u8; 16]>>,
}

impl TableDump {
    /// The entries of the allowlist that could be read.
    pub open spec fn allowed(self) -> Seq<(Source, Reputation)> {
        joined(self.allowed_v4@, self.allowed_v6@)
    }

    /// The entries of the blocklist that could be read.
    pub open spec fn blocked(self) -> Seq<(Source, BlockedEntry)> {
        joined(self.blocked_v4@, self.blocked_v6@)
    }

    /// The totals of the packet counts that could be read.
    pub open spec fn counts(self) -> Seq<(Source, u64)> {
        joined(summed(self.pkt_counts_v4@), summed(self.pkt_counts_v6@))
    }

    /// The unknown sources that could be read.
    pub open spec fn unknown(self) -> Seq<Source> {
        joined_keys(self.unknown_v4@, self.unknown_v6@)
    }
}

/// Whether `output` shows every entry that could be read, in order, and nothing else.
pub open spec fn is_snapshot(output: InspectOutput, dump: TableDump) -> bool {
    &&& output.allowed@.len() == dump.allowed().len()
    &&& forall|i: int|
        0 <= i < output.allowed@.len() ==> shows_allowed(
            #[trigger] output.allowed@[i],
            dump.allowed()[i],
        )
    &&& output.blocked@.len() == dump.blocked().len()
    &&& forall|i: int|
        0 <= i < output.blocked@.len() ==> shows_blocked(
            #[trigger] output.blocked@[i],
            dump.blocked()[i],
        )
    &&& output.packet_counts@.len() == dump.counts().len()
    &&& forall|i: int|
        0 <= i < output.packet_counts@.len() ==> shows_count(
            #[trigger] output.packet_counts@[i],
            dump.counts()[i],
        )
    &&& output.unknown_buckets@.len() == dump.unknown().len()
    &&& forall|i: int|
        0 <= i < output.unknown_buckets@.len() ==> source_of(#[trigger] output.unknown_buckets@[i])
            == dump.unknown()[i]
}

/// Makes the snapshot of what was read from the tables.
pub fn inspect(dump: &TableDump) -> (output: InspectOutput)
    requires
        sums_fit(dump.pkt_counts_v4@),
        sums_fit(dump.pkt_counts_v6@),
    ensures
        is_snapshot(output, *dump),
{
    InspectOutput {
        allowed: collect_allowed(dump.allowed_v4.as_slice(), dump.allowed_v6.as_slice()),
        blocked: collect_blocked(dump.blocked_v4.as_slice(), dump.blocked_v6.as_slice()),
        packet_counts: collect_counts(
            dump.pkt_counts_v4.as_slice(),
            dump.pkt_counts_v6.as_slice(),
        ),
        unknown_buckets: collect_unknown(
            dump.unknown_v4.as_slice(),
            dump.unknown_v6.as_slice(),
        ),
    }
}

/// The sum over two groups of processors is the sum over the one plus that over the other, and
/// one processor counts for what it counted.
pub proof fn law_sums_add_up(first: Seq<u64>, second: Seq<u64>, count: u64)
    ensures
        sum_of(first + second) == sum_of(first) + sum_of(second),
        sum_of(seq![count]) == count,
    decreases second.len(),
{
    reveal_with_fuel(sum_of, 2);
    assert(seq![count].drop_last() =~= Seq::<u64>::empty());
    if second.len() == 0 {
        assert(first + second =~= first);
    } else {
        law_sums_add_up(first, second.drop_last(), count);
        assert((first + second).drop_last() =~= first + second.drop_last());
    }
}

/// The counts of a table can be summed exactly when those of each of its entries can.
pub proof fn law_sums_fit_entry_by_entry<K>(table: Seq<Option<(K, Vec<u64>)>>)
    ensures
        sums_fit(table) <==> forall|i: int|
            0 <= i < table.len() && #[trigger] table[i] is Some ==> sum_of((table[i]->0).1@)
                <= u64::MAX,
{
    if sums_fit(table) {
        assert forall|i: int| 0 <= i < table.len() && #[trigger] table[i] is Some implies sum_of(
            (table[i]->0).1@,
        ) <= u64::MAX by {
            assert(table[i] matches Some(entry) ==> sum_of(entry.1@) <= u64::MAX);
        }
    }
}

proof fn lemma_summed_entries<K>(table: Seq<Option<(K, Vec<u64>)>>)
    ensures
        present(summed(table)).len() == present(table).len(),
        forall|i: int|
            0 <= i < present(table).len() ==> #[trigger] present(summed(table))[i] == (
                present(table)[i].0,
                sum_of(present(table)[i].1@) as u64,
            ),
    decreases table.len(),
{
    if table.len() > 0 {
        lemma_summed_entries(table.drop_last());
        assert(summed(table).drop_last() =~= summed(table.drop_last()));
        assert(summed(table).len() == table.len());
        assert forall|i: int| 0 <= i < present(table).len() implies #[trigger] present(
            summed(table),
        )[i] == (present(table)[i].0, sum_of(present(table)[i].1@) as u64) by {
            if i < present(table.drop_last()).len() {
                assert(present(summed(table.drop_last()))[i] == (
                    present(table.drop_last())[i].0,
                    sum_of(present(table.drop_last())[i].1@) as u64,
                ));
            }
        }
    }
}

/// The entries of both families are taken one for one, the IPv4 ones first.
proof fn lemma_joined_entries<V>(v4: Seq<Option<(u32, V)>>, v6: Seq<Option<([u8; 16], V)>>)
    ensures
        joined(v4, v6).len() == present(v4).len() + present(v6).len(),
        forall|i: int|
            0 <= i < present(v4).len() ==> #[trigger] joined(v4, v6)[i] == (
                Source::V4(present(v4)[i].0),
                present(v4)[i].1,
            ),
        forall|i: int|
            0 <= i < present(v6).len() ==> joined(v4, v6)[present(v4).len() + i] == (
                Source::V6(#[trigger] present(v6)[i].0),
                present(v6)[i].1,
            ),
{
}

/// Every allowed peer that could be read is in the snapshot, at its own place, with its address,
/// score and balance; and there is nothing else.
pub proof fn law_snapshot_shows_each_peer(output: InspectOutput, dump: TableDump, i: int)
    requires
        is_snapshot(output, dump),
        0 <= i,
    ensures
        output.allowed@.len() == present(dump.allowed_v4@).len() + present(
            dump.allowed_v6@,
        ).len(),
        i < present(dump.allowed_v4@).len() ==> {
            let seen = output.allowed@[i];
            let held = present(dump.allowed_v4@)[i];
            &&& seen.ip matches IpAddr::V4(octets) && held.0 == octets@[0] * 0x100_0000 + octets@[1]
                * 0x1_0000 + octets@[2] * 0x100 + octets@[3]
            &&& seen.score == held.1.score
            &&& seen.tokens == held.1.bucket.tokens
        },
        i < present(dump.allowed_v6@).len() ==> {
            let seen = output.allowed@[present(dump.allowed_v4@).len() + i];
            let held = present(dump.allowed_v6@)[i];
            &&& seen.ip == IpAddr::V6(held.0)
            &&& seen.score == held.1.score
            &&& seen.tokens == held.1.bucket.tokens
        },
{
    lemma_joined_entries(dump.allowed_v4@, dump.allowed_v6@);
    if i < present(dump.allowed_v4@).len() {
        assert(shows_allowed(output.allowed@[i], dump.allowed()[i]));
        law_key_is_of_the_address(output.allowed@[i].ip);
    }
    if i < present(dump.allowed_v6@).len() {
        let at: int = present(dump.allowed_v4@).len() + i;
        assert(shows_allowed(output.allowed@[at], dump.allowed()[at]));
        assert(dump.allowed()[at].0 == Source::V6(present(dump.allowed_v6@)[i].0));
    }
}

/// Every blocked source that could be read is in the snapshot, at its own place, with its
/// address, hits and time; and there is nothing else.
pub proof fn law_snapshot_shows_each_blocked_source(output: InspectOutput, dump: TableDump, i: int)
    requires
        is_snapshot(output, dump),
        0 <= i,
    ensures
        output.blocked@.len() == present(dump.blocked_v4@).len() + present(
            dump.blocked_v6@,
        ).len(),
        i < present(dump.blocked_v4@).len() ==> {
            let seen = output.blocked@[i];
            let held = present(dump.blocked_v4@)[i];
            &&& seen.ip matches IpAddr::V4(octets) && held.0 == octets@[0] * 0x100_0000 + octets@[1]
                * 0x1_0000 + octets@[2] * 0x100 + octets@[3]
            &&& seen.hits == held.1.hits
            &&& seen.last_seen_ns == held.1.last_seen_ns
        },
        i < present(dump.blocked_v6@).len() ==> {
            let seen = output.blocked@[present(dump.blocked_v4@).len() + i];
            let held = present(dump.blocked_v6@)[i];
            &&& seen.ip == IpAddr::V6(held.0)
            &&& seen.hits == held.1.hits
            &&& seen.last_seen_ns == held.1.last_seen_ns
        },
{
    lemma_joined_entries(dump.blocked_v4@, dump.blocked_v6@);
    if i < present(dump.blocked_v4@).len() {
        assert(shows_blocked(output.blocked@[i], dump.blocked()[i]));
        law_key_is_of_the_address(output.blocked@[i].ip);
    }
    if i < present(dump.blocked_v6@).len() {
        let at: int = present(dump.blocked_v4@).len() + i;
        assert(shows_blocked(output.blocked@[at], dump.blocked()[at]));
        assert(dump.blocked()[at].0 == Source::V6(present(dump.blocked_v6@)[i].0));
    }
}

/// Every packet count that could be read is in the snapshot, at its own place, with its address
/// and the sum over all processors; and there is nothing else.
pub proof fn law_snapshot_shows_each_count(output: InspectOutput, dump: TableDump, i: int)
    requires
        is_snapshot(output, dump),
        0 <= i,
    ensures
        output.packet_counts@.len() == present(dump.pkt_counts_v4@).len() + present(
            dump.pkt_counts_v6@,
        ).len(),
        i < present(dump.pkt_counts_v4@).len() ==> {
            let seen = output.packet_counts@[i];
            let held = present(dump.pkt_counts_v4@)[i];
            &&& seen.ip matches IpAddr::V4(octets) && held.0 == octets@[0] * 0x100_0000 + octets@[1]
                * 0x1_0000 + octets@[2] * 0x100 + octets@[3]
            &&& sum_of(held.1@) <= u64::MAX ==> seen.total == sum_of(held.1@)
        },
        i < present(dump.pkt_counts_v6@).len() ==> {
            let seen = output.packet_counts@[present(dump.pkt_counts_v4@).len() + i];
            let held = present(dump.pkt_counts_v6@)[i];
            &&& seen.ip == IpAddr::V6(held.0)
            &&& sum_of(held.1@) <= u64::MAX ==> seen.total == sum_of(held.1@)
        },
{
    lemma_summed_entries(dump.pkt_counts_v4@);
    lemma_summed_entries(dump.pkt_counts_v6@);
    lemma_joined_entries(summed(dump.pkt_counts_v4@), summed(dump.pkt_counts_v6@));
    if i < present(dump.pkt_counts_v4@).len() {
        assert(shows_count(output.packet_counts@[i], dump.counts()[i]));
        assert(dump.counts()[i].0 == Source::V4(present(summed(dump.pkt_counts_v4@))[i].0));
        law_key_is_of_the_address(output.packet_counts@[i].ip);
    }
    if i < present(dump.pkt_counts_v6@).len() {
        let at: int = present(dump.pkt_counts_v4@).len() + i;
        assert(shows_count(output.packet_counts@[at], dump.counts()[at]));
        assert(dump.counts()[at].0 == Source::V6(present(summed(dump.pkt_counts_v6@))[i].0));
    }
}

/// Every unknown source whose key could be read is in the snapshot, at its own place, by its
/// address; and there is nothing else.
pub proof fn law_snapshot_shows_each_unknown_source(output: InspectOutput, dump: TableDump, i: int)
    requires
        is_snapshot(output, dump),
        0 <= i,
    ensures
        output.unknown_buckets@.len() == present(dump.unknown_v4@).len() + present(
            dump.unknown_v6@,
        ).len(),
        i < present(dump.unknown_v4@).len() ==> {
            let seen = output.unknown_buckets@[i];
            let held = present(dump.unknown_v4@)[i];
            &&& seen matches IpAddr::V4(octets) && held == octets@[0] * 0x100_0000 + octets@[1]
                * 0x1_0000 + octets@[2] * 0x100 + octets@[3]
        },
        i < present(dump.unknown_v6@).len() ==> {
            let seen = output.unknown_buckets@[present(dump.unknown_v4@).len() + i];
            let held = present(dump.unknown_v6@)[i];
            &&& seen == IpAddr::V6(held)
        },
{
    if i < present(dump.unknown_v4@).len() {
        assert(source_of(output.unknown_buckets@[i]) == dump.unknown()[i]);
        law_key_is_of_the_address(output.unknown_buckets@[i]);
    }
    if i < present(dump.unknown_v6@).len() {
        let at: int = present(dump.unknown_v4@).len() + i;
        assert(source_of(output.unknown_buckets@[at]) == dump.unknown()[at]);
        assert(dump.unknown()[at] == Source::V6(present(dump.unknown_v6@)[i]));
    }
}

} // verus!
