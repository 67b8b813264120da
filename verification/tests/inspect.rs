use bpfimp::addr::IpAddr;
use bpfimp::inspect::{
    collect_allowed, collect_blocked, collect_counts, collect_unknown, inspect, total,
    AllowedRecord, BlockedRecord, InspectOutput, PacketCountRecord, TableDump,
};
use bpfimp::loaded::{
    ensure_running, find_map, find_ringbuf, pin_path, LoadedMap, NotRunning, ALLOWED_V4_MAP,
    PKT_COUNTS_V6_MAP, UNK_BKTS_V4_MAP, UNK_BKTS_V6_MAP, V4_KEY_SIZE, V6_KEY_SIZE,
};
use bpfimp::report::print_human;
use bpfimp::text::{decimal, Piece};
use bpfimp::{BlockedEntry, Reputation, TokenBucket};

const V6: [u8; 16] = [0x20, 0x01, 0x0d, 0xb8, 0, 0, 0, 0, 0, 0, 0, 0, 0, 0, 0, 0x50];

fn render(pieces: &[Piece]) -> String {
    let mut out = String::new();
    for piece in pieces {
        match piece {
            Piece::Text(text) => out.push_str(text),
            Piece::Ip(IpAddr::V4([a, b, c, d])) => out.push_str(&format!("{a}.{b}.{c}.{d}")),
            Piece::Ip(IpAddr::V6(octets)) => {
                assert_eq!(*octets, V6);
                out.push_str("2001:db8::50");
            }
        }
    }
    out
}

fn peer(tokens: u32, score: u32) -> Reputation {
    Reputation { bucket: TokenBucket { tokens, last_refill_ns: 0 }, score }
}

#[test]
fn decimal_numbers() {
    for n in [0u64, 7, 10, 99, 100, 120, 1_000_000_007, u64::MAX] {
        assert_eq!(decimal(n), n.to_string());
    }
}

#[test]
fn records_come_in_order_and_skip_what_failed() {
    assert_eq!(
        collect_allowed(
            &[Some((0x0102_0304, peer(5, 60))), None, Some((1, peer(6, 70)))],
            &[Some((V6, peer(7, 80)))]
        ),
        vec![
            AllowedRecord { ip: IpAddr::V4([1, 2, 3, 4]), score: 60, tokens: 5 },
            AllowedRecord { ip: IpAddr::V4([0, 0, 0, 1]), score: 70, tokens: 6 },
            AllowedRecord { ip: IpAddr::V6(V6), score: 80, tokens: 7 },
        ]
    );
    assert_eq!(
        collect_blocked(
            &[None, Some((0x0102_0304, BlockedEntry { hits: 3, last_seen_ns: 4 }))],
            &[None]
        ),
        vec![BlockedRecord { ip: IpAddr::V4([1, 2, 3, 4]), hits: 3, last_seen_ns: 4 }]
    );
    assert_eq!(
        collect_unknown(&[Some(2), None], &[Some(V6)]),
        vec![IpAddr::V4([0, 0, 0, 2]), IpAddr::V6(V6)]
    );
}

#[test]
fn counts_are_summed_over_processors() {
    assert_eq!(total(&[]), Some(0));
    assert_eq!(total(&[1, 2, 3]), Some(6));
    assert_eq!(total(&[u64::MAX, 0]), Some(u64::MAX));
    assert_eq!(total(&[u64::MAX, 1]), None);
    assert_eq!(
        collect_counts(&[Some((1, vec![1, 2, 3])), None], &[Some((V6, vec![]))]),
        vec![
            PacketCountRecord { ip: IpAddr::V4([0, 0, 0, 1]), total: 6 },
            PacketCountRecord { ip: IpAddr::V6(V6), total: 0 },
        ]
    );
}

#[test]
fn report_has_four_sections() {
    let output = InspectOutput {
        allowed: vec![AllowedRecord { ip: IpAddr::V4([10, 200, 0, 2]), score: 100, tokens: 3 }],
        blocked: vec![BlockedRecord { ip: IpAddr::V6(V6), hits: 42, last_seen_ns: 9 }],
        packet_counts: vec![
            PacketCountRecord { ip: IpAddr::V4([1, 2, 3, 4]), total: 0 },
            PacketCountRecord { ip: IpAddr::V6(V6), total: 1234567890123 },
        ],
        unknown_buckets: vec![IpAddr::V4([8, 8, 8, 8])],
    };
    assert_eq!(
        render(&print_human(&output)),
        "=== ALLOWED ===\n* 10.200.0.2\n\t- Rep Score: 100\n\
         \n=== BLOCKED ===\n* 2001:db8::50\n\t- Hits: 42\n\
         \n=== PACKET COUNTS ===\n* 1.2.3.4\n\t Total: 0\n* 2001:db8::50\n\t Total: 1234567890123\n\
         \n=== UNKNOWN BUCKETS ===\n* 8.8.8.8\n"
    );
}

#[test]
fn snapshot_of_a_dump() {
    let dump = TableDump {
        allowed_v4: vec![Some((1, peer(2, 30)))],
        allowed_v6: vec![],
        blocked_v4: vec![],
        blocked_v6: vec![Some((V6, BlockedEntry { hits: 1, last_seen_ns: 2 }))],
        pkt_counts_v4: vec![Some((1, vec![4, 5]))],
        pkt_counts_v6: vec![None],
        unknown_v4: vec![],
        unknown_v6: vec![Some(V6)],
    };
    let output = inspect(&dump);
    assert_eq!(
        output.allowed,
        vec![AllowedRecord { ip: IpAddr::V4([0, 0, 0, 1]), score: 30, tokens: 2 }]
    );
    assert_eq!(
        output.blocked,
        vec![BlockedRecord { ip: IpAddr::V6(V6), hits: 1, last_seen_ns: 2 }]
    );
    assert_eq!(
        output.packet_counts,
        vec![PacketCountRecord { ip: IpAddr::V4([0, 0, 0, 1]), total: 9 }]
    );
    assert_eq!(output.unknown_buckets, vec![IpAddr::V6(V6)]);
}

fn map(id: u32, name: Option<&str>, key_size: u32) -> Option<LoadedMap> {
    Some(LoadedMap { id, name: name.map(String::from), key_size })
}

#[test]
fn maps_are_found_by_name_and_key_size() {
    let maps = vec![
        None,
        map(1, None, 4),
        map(2, Some("other"), 4),
        map(3, Some("UNKNOWN_BUCKETS"), 16),
        map(4, Some("UNKNOWN_BUCKETS"), 4),
        map(5, Some("UNKNOWN_BUCKETS"), 4),
    ];
    assert_eq!(find_map(&maps, UNK_BKTS_V4_MAP, V4_KEY_SIZE), Some(4));
    assert_eq!(find_map(&maps, UNK_BKTS_V6_MAP, V6_KEY_SIZE), Some(3));
    assert_eq!(find_map(&maps, "other", 16), None);
    assert_eq!(find_ringbuf(&maps, "UNKNOWN_BUCKETS"), Some(3));
    assert_eq!(find_ringbuf(&maps, "EVENTS"), None);
}

#[test]
fn running_means_the_program_is_loaded() {
    assert_eq!(
        ensure_running(&[None, Some(None), Some(Some("bpfimp".to_string()))]),
        Ok(())
    );
    assert_eq!(ensure_running(&[None, Some(None), Some(Some("bpf".to_string()))]), Err(NotRunning));
    assert_eq!(ensure_running(&[]), Err(NotRunning));
    assert_eq!(NotRunning.message(), "bpfimp does not appear to be running");
}

#[test]
fn pins_lie_under_the_pin_directory() {
    assert_eq!(pin_path(ALLOWED_V4_MAP), "/sys/fs/bpf/bpfimp/ALLOWED_BUCKETS_V4");
    assert_eq!(pin_path(PKT_COUNTS_V6_MAP), "/sys/fs/bpf/bpfimp/PACKET_COUNTS_V6");
}
