use bpfimp::addr::IpAddr;
use bpfimp::text::Piece;
use bpfimp::watch::{
    decode_event, print_event, watch_record, ByteOrder, EventKind, ImpEvent, Record, WatchEvent,
    WireError, EVENT_KIND_DROP, IMP_EVENT_LEN,
};

fn octets() -> [u8; 16] {
    let mut o = [0; 16];
    for (i, b) in o.iter_mut().enumerate() {
        *b = i as u8 + 1;
    }
    o
}

fn event(kind: u8, ip_version: u8) -> ImpEvent {
    ImpEvent { ts_ns: 0x0102_0304_0506_0708, addr: octets(), kind, ip_version }
}

fn bytes(e: &ImpEvent, order: ByteOrder) -> Vec<u8> {
    let mut out = match order {
        ByteOrder::Little => e.ts_ns.to_le_bytes().to_vec(),
        ByteOrder::Big => e.ts_ns.to_be_bytes().to_vec(),
    };
    out.extend_from_slice(&e.addr);
    out.push(e.kind);
    out.push(e.ip_version);
    out.resize(IMP_EVENT_LEN, 0);
    out
}

#[test]
fn drop_has_its_code() {
    assert_eq!(EventKind::Drop.code(), EventKind::Drop as u8);
    assert_eq!(EventKind::Drop.code(), EVENT_KIND_DROP);
}

#[test]
fn events_are_read_by_version() {
    assert_eq!(
        WatchEvent::from_wire(&event(EVENT_KIND_DROP, 4)),
        Ok(WatchEvent::Drop {
            ts_ns: 0x0102_0304_0506_0708,
            ip: IpAddr::V4([1, 2, 3, 4]),
            ip_version: 4
        })
    );
    assert_eq!(
        WatchEvent::from_wire(&event(EVENT_KIND_DROP, 6)),
        Ok(WatchEvent::Drop {
            ts_ns: 0x0102_0304_0506_0708,
            ip: IpAddr::V6(octets()),
            ip_version: 6
        })
    );
}

#[test]
fn bad_version_is_reported_before_bad_kind() {
    assert_eq!(WatchEvent::from_wire(&event(9, 5)), Err(WireError::IpVersion(5)));
    assert_eq!(WatchEvent::from_wire(&event(9, 4)), Err(WireError::Kind(9)));
    assert_eq!(WatchEvent::from_wire(&event(255, 6)), Err(WireError::Kind(255)));
}

#[test]
fn errors_in_words() {
    assert_eq!(WireError::IpVersion(5).message(), "invalid ip version on wire: 5");
    assert_eq!(WireError::Kind(250).message(), "invalid event kind on wire: 250");
}

#[test]
fn events_are_decoded_in_either_order() {
    let e = event(3, 4);
    for order in [ByteOrder::Little, ByteOrder::Big] {
        assert_eq!(decode_event(&bytes(&e, order), order), Some(e));
    }
    let mut longer = bytes(&e, ByteOrder::Little);
    longer.push(77);
    assert_eq!(decode_event(&longer, ByteOrder::Little), Some(e));
    assert_eq!(decode_event(&longer[..31], ByteOrder::Little), None);
}

#[test]
fn records_are_skipped_shown_or_refused() {
    let little = ByteOrder::Little;
    assert_eq!(watch_record(&[0; 31], little), Record::Short);
    assert_eq!(
        watch_record(&bytes(&event(EVENT_KIND_DROP, 4), little), little),
        Record::Event(WatchEvent::Drop {
            ts_ns: 0x0102_0304_0506_0708,
            ip: IpAddr::V4([1, 2, 3, 4]),
            ip_version: 4
        })
    );
    assert_eq!(
        watch_record(&bytes(&event(1, 4), little), little),
        Record::Malformed(WireError::Kind(1))
    );
    assert_eq!(
        watch_record(&bytes(&event(EVENT_KIND_DROP, 0), little), little),
        Record::Malformed(WireError::IpVersion(0))
    );
}

#[test]
fn line_of_a_drop() {
    let line = print_event(&WatchEvent::Drop {
        ts_ns: 1234,
        ip: IpAddr::V4([1, 2, 3, 4]),
        ip_version: 4,
    });
    assert_eq!(line.len(), 3);
    assert!(matches!(&line[0], Piece::Text(text) if text == "[1234] DROP "));
    assert!(matches!(&line[1], Piece::Ip(IpAddr::V4([1, 2, 3, 4]))));
    assert!(matches!(&line[2], Piece::Text(text) if text == "\n"));
}
