use bpfimp::addr::Source;
use bpfimp::filter::{
    answer, bpfimp, handle_ipv4, handle_ipv6, try_bpfimp, verdict, Reply, Step, Table, Update,
    XdpAction,
};
use bpfimp::packet::{
    frame_protocol, ptr_at, Protocol, ETHER_TYPE_IPV4, ETHER_TYPE_IPV6, ETH_HDR_LEN,
    IPV4_HDR_LEN, IPV6_HDR_LEN,
};
use bpfimp::{BlockedEntry, Reputation, TokenBucket, NS_PER_SEC};
use network_types::eth::{EthHdr, EtherType};
use network_types::ip::{Ipv4Hdr, Ipv6Hdr};
use std::collections::HashMap;

const V4: [u8; 4] = [10, 200, 0, 2];
const V6: [u8; 16] = [0xfd, 0, 2, 0, 0, 0, 0, 0, 0, 0, 0, 0, 0, 0, 0, 2];

fn frame(tag: [u8; 2], body: &[u8]) -> Vec<u8> {
    let mut f = vec![1, 2, 3, 4, 5, 6, 7, 8, 9, 10, 11, 12];
    f.extend_from_slice(&tag);
    f.extend_from_slice(body);
    f
}

fn ipv4_frame(src: [u8; 4]) -> Vec<u8> {
    let mut body = vec![0x45; 12];
    body.extend_from_slice(&src);
    body.extend_from_slice(&[10, 200, 0, 1]);
    frame([0x08, 0x00], &body)
}

fn ipv6_frame(src: [u8; 16]) -> Vec<u8> {
    let mut body = vec![0x60; 8];
    body.extend_from_slice(&src);
    body.extend_from_slice(&[9; 16]);
    frame([0x86, 0xdd], &body)
}

#[derive(Default)]
struct Tables {
    blocked: HashMap<Source4or6, BlockedEntry>,
    counts: HashMap<Source4or6, u64>,
    allowed: HashMap<Source4or6, Reputation>,
    unknown: HashMap<Source4or6, TokenBucket>,
    lookups: usize,
}

#[derive(PartialEq, Eq, Hash, Clone, Copy, Debug)]
struct Source4or6(bool, [u8; 16]);

fn key(source: Source) -> Source4or6 {
    match source {
        Source::V4(bits) => {
            let mut octets = [0; 16];
            octets[..4].copy_from_slice(&bits.to_be_bytes());
            Source4or6(false, octets)
        }
        Source::V6(octets) => Source4or6(true, octets),
    }
}

fn drive(tables: &mut Tables, frame: &[u8], now: u64) -> XdpAction {
    let mut step = bpfimp(frame);
    loop {
        let (table, source) = match step {
            Step::Finish(action) => return action,
            Step::Lookup(table, source) => (table, source),
        };
        tables.lookups += 1;
        let k = key(source);
        let reply = match table {
            Table::Blocked => Reply::Blocked(tables.blocked.get(&k).copied()),
            Table::Counts => Reply::Count(tables.counts.get(&k).copied()),
            Table::Allowed => Reply::Allowed(tables.allowed.get(&k).copied()),
            Table::Unknown => Reply::Unknown(tables.unknown.get(&k).copied()),
        };
        let (update, next) = answer(source, reply, now);
        match update {
            Update::Nothing => {}
            Update::Blocked(e) => {
                tables.blocked.insert(k, e);
            }
            Update::Count(n) | Update::NewCount(n, _) => {
                tables.counts.insert(k, n);
            }
            Update::Allowed(p) => {
                tables.allowed.insert(k, p);
            }
            Update::Unknown(b) | Update::NewUnknown(b, _) => {
                tables.unknown.insert(k, b);
            }
        }
        step = next;
    }
}

#[test]
fn header_lengths_and_tags_match_the_wire_types() {
    assert_eq!(ETH_HDR_LEN, EthHdr::LEN);
    assert_eq!(IPV4_HDR_LEN, Ipv4Hdr::LEN);
    assert_eq!(IPV6_HDR_LEN, Ipv6Hdr::LEN);
    assert_eq!(ETHER_TYPE_IPV4, u16::from_be(EtherType::Ipv4.into()));
    assert_eq!(ETHER_TYPE_IPV6, u16::from_be(EtherType::Ipv6.into()));
}

#[test]
fn ptr_at_stays_within_the_frame() {
    let data = [1u8, 2, 3, 4];
    assert_eq!(ptr_at(&data, 1, 3), Ok(&data[1..4]));
    assert_eq!(ptr_at(&data, 4, 0), Ok(&data[4..4]));
    assert_eq!(ptr_at(&data, 2, 3), Err(()));
    assert_eq!(ptr_at(&data, 5, 0), Err(()));
    assert_eq!(ptr_at(&data, usize::MAX, 2), Err(()));
}

#[test]
fn protocol_is_read_off_the_tag() {
    assert_eq!(frame_protocol(&frame([0x08, 0x00], &[])), Ok(Protocol::Ipv4));
    assert_eq!(frame_protocol(&frame([0x86, 0xdd], &[])), Ok(Protocol::Ipv6));
    assert_eq!(frame_protocol(&frame([0x08, 0x06], &[])), Ok(Protocol::Other));
    assert_eq!(frame_protocol(&frame([0x00, 0x08], &[])), Ok(Protocol::Other));
    assert_eq!(frame_protocol(&frame([0x12, 0x34], &[])), Ok(Protocol::Other));
    assert_eq!(frame_protocol(&[0; 13]), Err(()));
}

#[test]
fn frames_start_at_the_blocklist_of_their_family() {
    assert_eq!(
        try_bpfimp(&ipv4_frame(V4)),
        Ok(Step::Lookup(Table::Blocked, Source::V4(0x0ac8_0002)))
    );
    assert_eq!(
        try_bpfimp(&ipv6_frame(V6)),
        Ok(Step::Lookup(Table::Blocked, Source::V6(V6)))
    );
    assert_eq!(
        handle_ipv4(&ipv4_frame(V4)),
        Ok(Step::Lookup(Table::Blocked, Source::V4(0x0ac8_0002)))
    );
    assert_eq!(
        handle_ipv6(&ipv6_frame(V6)),
        Ok(Step::Lookup(Table::Blocked, Source::V6(V6)))
    );
}

#[test]
fn other_protocols_pass_untouched() {
    let mut t = Tables::default();
    assert_eq!(drive(&mut t, &frame([0x08, 0x06], &[0; 28]), 1), XdpAction::Pass);
    assert_eq!(t.lookups, 0);
}

#[test]
fn short_frames_are_aborted() {
    assert_eq!(bpfimp(&[]), Step::Finish(XdpAction::Aborted));
    assert_eq!(bpfimp(&[0; 13]), Step::Finish(XdpAction::Aborted));
    let v4 = ipv4_frame(V4);
    assert_eq!(v4.len(), 34);
    assert_eq!(bpfimp(&v4[..33]), Step::Finish(XdpAction::Aborted));
    let v6 = ipv6_frame(V6);
    assert_eq!(v6.len(), 54);
    assert_eq!(bpfimp(&v6[..53]), Step::Finish(XdpAction::Aborted));
    assert_eq!(try_bpfimp(&v6[..53]), Err(()));
    assert_eq!(handle_ipv4(&v4[..33]), Err(()));
    assert_eq!(handle_ipv6(&v6[..53]), Err(()));
}

#[test]
fn verdicts() {
    assert_eq!(verdict(true), XdpAction::Pass);
    assert_eq!(verdict(false), XdpAction::Drop);
}

#[test]
fn every_reply_has_its_answer() {
    let s = Source::V4(1);
    let bucket = TokenBucket { tokens: 2, last_refill_ns: 0 };
    let empty = TokenBucket { tokens: 0, last_refill_ns: 0 };
    assert_eq!(
        answer(s, Reply::Blocked(Some(BlockedEntry { hits: 4, last_seen_ns: 1 })), 9),
        (
            Update::Blocked(BlockedEntry { hits: 5, last_seen_ns: 9 }),
            Step::Finish(XdpAction::Drop)
        )
    );
    assert_eq!(
        answer(s, Reply::Blocked(None), 9),
        (Update::Nothing, Step::Lookup(Table::Counts, s))
    );
    assert_eq!(
        answer(s, Reply::Count(Some(41)), 9),
        (Update::Count(42), Step::Lookup(Table::Allowed, s))
    );
    assert_eq!(
        answer(s, Reply::Count(None), 9),
        (Update::NewCount(1, 1), Step::Lookup(Table::Allowed, s))
    );
    assert_eq!(
        answer(s, Reply::Allowed(Some(Reputation { bucket, score: 50 })), 9),
        (
            Update::Allowed(Reputation {
                bucket: TokenBucket { tokens: 1, last_refill_ns: 0 },
                score: 51
            }),
            Step::Finish(XdpAction::Pass)
        )
    );
    assert_eq!(
        answer(s, Reply::Allowed(Some(Reputation { bucket: empty, score: 50 })), 9),
        (
            Update::Allowed(Reputation { bucket: empty, score: 40 }),
            Step::Finish(XdpAction::Drop)
        )
    );
    assert_eq!(
        answer(s, Reply::Allowed(None), 9),
        (Update::Nothing, Step::Lookup(Table::Unknown, s))
    );
    assert_eq!(
        answer(s, Reply::Unknown(Some(bucket)), 9),
        (
            Update::Unknown(TokenBucket { tokens: 1, last_refill_ns: 0 }),
            Step::Finish(XdpAction::Pass)
        )
    );
    assert_eq!(
        answer(s, Reply::Unknown(Some(empty)), 9),
        (Update::Unknown(empty), Step::Finish(XdpAction::Drop))
    );
    assert_eq!(
        answer(s, Reply::Unknown(None), 9),
        (
            Update::NewUnknown(TokenBucket { tokens: 100, last_refill_ns: 9 }, 0),
            Step::Finish(XdpAction::Pass)
        )
    );
}

#[test]
fn blocked_source_is_dropped_and_not_counted() {
    let mut t = Tables::default();
    let k = key(Source::V4(0x0ac8_0002));
    t.blocked.insert(k, BlockedEntry::default());
    t.allowed.insert(k, Reputation::new(0));
    for now in 1..=3u64 {
        assert_eq!(drive(&mut t, &ipv4_frame(V4), now), XdpAction::Drop);
    }
    assert_eq!(t.blocked[&k], BlockedEntry { hits: 3, last_seen_ns: 3 });
    assert!(t.counts.is_empty());
    assert_eq!(t.allowed[&k], Reputation::new(0));
    assert!(t.unknown.is_empty());
}

#[test]
fn new_source_gets_a_bucket_and_is_limited() {
    let mut t = Tables::default();
    let mut passed = 0;
    for _ in 0..150 {
        if drive(&mut t, &ipv6_frame(V6), 5) == XdpAction::Pass {
            passed += 1;
        }
    }
    // The first packet opens the bucket, the next hundred empty it.
    assert_eq!(passed, 101);
    let k = key(Source::V6(V6));
    assert_eq!(t.counts[&k], 150);
    assert_eq!(t.unknown[&k].tokens, 0);
    assert_eq!(drive(&mut t, &ipv6_frame(V6), 5 + NS_PER_SEC), XdpAction::Pass);
    assert_eq!(t.unknown[&k].tokens, 9);
}

#[test]
fn allowed_peer_is_metered_by_reputation() {
    let mut t = Tables::default();
    let k = key(Source::V4(0x0ac8_0002));
    t.allowed.insert(k, Reputation::new(0));
    for _ in 0..200 {
        assert_eq!(drive(&mut t, &ipv4_frame(V4), 0), XdpAction::Pass);
    }
    assert_eq!(drive(&mut t, &ipv4_frame(V4), 0), XdpAction::Drop);
    assert_eq!(t.allowed[&k].score, 90);
    assert_eq!(t.counts[&k], 201);
    assert!(t.unknown.is_empty());
}

#[test]
fn families_and_sources_are_tracked_apart() {
    let mut t = Tables::default();
    for _ in 0..102 {
        drive(&mut t, &ipv4_frame(V4), 0);
    }
    assert_eq!(drive(&mut t, &ipv4_frame(V4), 0), XdpAction::Drop);
    assert_eq!(drive(&mut t, &ipv4_frame([10, 200, 0, 3]), 0), XdpAction::Pass);
    assert_eq!(drive(&mut t, &ipv6_frame(V6), 0), XdpAction::Pass);
    assert_eq!(t.unknown.len(), 3);
}

#[test]
fn a_packet_takes_at_most_four_lookups() {
    let mut t = Tables::default();
    drive(&mut t, &ipv4_frame(V4), 0);
    assert_eq!(t.lookups, 4);
}

#[test]
fn full_counters_cannot_count() {
    assert!(Reply::Count(Some(u64::MAX - 1)).is_countable());
    assert!(!Reply::Count(Some(u64::MAX)).is_countable());
    assert!(!Reply::Blocked(Some(BlockedEntry { hits: u64::MAX, last_seen_ns: 0 })).is_countable());
    assert!(Reply::Blocked(None).is_countable());
    assert!(Reply::Unknown(None).is_countable());
}

#[test]
fn mixed_traffic_comes_to_what_each_source_alone_does() {
    let mut mixed = Tables::default();
    let mut alone = Tables::default();
    let (mut passed_mixed, mut passed_alone) = (0, 0);
    for i in 0..600u64 {
        let now = i * NS_PER_SEC / 100;
        let other = drive(&mut mixed, &ipv4_frame([10, 200, 0, (i % 3) as u8 + 3]), now);
        assert!(other != XdpAction::Aborted);
        drive(&mut mixed, &ipv6_frame(V6), now);
        if drive(&mut mixed, &ipv4_frame(V4), now) == XdpAction::Pass {
            passed_mixed += 1;
        }
        if drive(&mut alone, &ipv4_frame(V4), now) == XdpAction::Pass {
            passed_alone += 1;
        }
    }
    let k = key(Source::V4(0x0ac8_0002));
    assert_eq!(passed_mixed, passed_alone);
    assert!(passed_mixed <= 1 + 100 + 10 * 5);
    assert_eq!(mixed.unknown[&k], alone.unknown[&k]);
    assert_eq!(mixed.counts[&k], 600);
}
