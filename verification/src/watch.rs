//! The feed of events: from a record of the ring buffer to what is shown for it.
//!
//! The layout of a record and the numbers in it are this library's choice. They have to be kept
//! equal on the side that writes the records.

use crate::addr::IpAddr;
use crate::text::{around, decimal_of, shown, Piece, PieceView};
use vstd::array::axiom_array_ext_equal;
use vstd::prelude::*;
use vstd::string::*;

verus! {

/// The kinds of event that a record can be of.
#[derive(Clone, Copy, Debug, PartialEq, Eq, Structural)]
pub enum EventKind {
    Drop,
}

/// The number of `EventKind::Drop` in a record; chosen here, to be kept equal by the writer.
pub const EVENT_KIND_DROP: u8 = 0;

/// The order in which the machine lays out the bytes of a number.
#[derive(Clone, Copy, Debug, PartialEq, Eq, Structural)]
pub enum ByteOrder {
    Little,
    Big,
}

/// An event as a record holds it. An IPv4 address takes the first four bytes.
#[derive(Clone, Copy, Debug, PartialEq, Eq)]
pub struct ImpEvent {
    pub ts_ns: u64,
    pub addr: [u8; 16],
    pub kind: u8,
    pub ip_version: u8,
}

/// Bytes of an event in the ring buffer. The layout chosen here, to be kept equal by the
/// writer: time, address, kind, version, and padding up to a multiple of the widest field.
pub const IMP_EVENT_LEN: usize = 32;

/// The event that an operator sees.
#[derive(Clone, Copy, Debug, PartialEq, Eq)]
pub enum WatchEvent {
    Drop { ts_ns: u64, ip: IpAddr, ip_version: u8 },
}

/// Why a record is no event.
#[derive(Clone, Copy, Debug, PartialEq, Eq, Structural)]
pub enum WireError {
    IpVersion(u8),
    Kind(u8),
}

/// What a record of the ring buffer comes to.
#[derive(Clone, Copy, Debug, PartialEq, Eq)]
pub enum Record {
    /// Shorter than an event; skipped.
    Short,
    Event(WatchEvent),
    Malformed(WireError),
}

/// The number that eight bytes spell, least significant first.
pub open spec fn number_of(b: Seq<u8>) -> int {
    b[0] + b[1] * 0x100 + b[2] * 0x1_0000 + b[3] * 0x100_0000 + b[4] * 0x1_0000_0000 + b[5]
        * 0x100_0000_0000 + b[6] * 0x1_0000_0000_0000 + b[7] * 0x100_0000_0000_0000
}

/// The number that eight bytes spell in the given order.
pub open spec fn ordered_number_of(bytes: Seq<u8>, order: ByteOrder) -> int {
    match order {
        ByteOrder::Little => number_of(bytes),
        ByteOrder::Big => number_of(bytes.reverse()),
    }
}

/// Whether `event` is what the first bytes of a record hold.
pub open spec fn is_event_in(event: ImpEvent, bytes: Seq<u8>, order: ByteOrder) -> bool {
    &&& event.ts_ns == ordered_number_of(bytes.subrange(0, 8), order)
    &&& event.addr@ == bytes.subrange(8, 24)
    &&& event.kind == bytes[24]
    &&& event.ip_version == bytes[25]
}

/// Whether `ip` is the address that an event of a known version names.
pub open spec fn is_ip_of(ip: IpAddr, event: ImpEvent) -> bool {
    if event.ip_version == 4 {
        ip matches IpAddr::V4(octets) && octets@ == event.addr@.subrange(0, 4)
    } else {
        ip == IpAddr::V6(event.addr)
    }
}

/// Whether `read` is what an event comes to: its version is looked at first, then its kind.
pub open spec fn is_read(event: ImpEvent, read: Result<WatchEvent, WireError>) -> bool {
    if event.ip_version != 4 && event.ip_version != 6 {
        read == Err::<WatchEvent, WireError>(WireError::IpVersion(event.ip_version))
    } else if event.kind != EVENT_KIND_DROP {
        read == Err::<WatchEvent, WireError>(WireError::Kind(event.kind))
    } else {
        read matches Ok(WatchEvent::Drop { ts_ns, ip, ip_version }) && ts_ns == event.ts_ns
            && ip_version == event.ip_version && is_ip_of(ip, event)
    }
}

/// Whether `record` is what a record that holds `event` comes to.
pub open spec fn is_record_of(record: Record, event: ImpEvent) -> bool {
    match record {
        Record::Short => false,
        Record::Event(seen) => is_read(event, Ok(seen)),
        Record::Malformed(error) => is_read(event, Err(error)),
    }
}

impl EventKind {
    /// The number of the kind in a record.
    pub fn code(&self) -> (code: u8)
        ensures
            code == EVENT_KIND_DROP,
    {
        match self {
            EventKind::Drop => EVENT_KIND_DROP,
        }
    }
}

impl WatchEvent {
    /// Reads an event off its record.
    pub fn from_wire(e: &ImpEvent) -> (read: Result<WatchEvent, WireError>)
        ensures
            is_read(*e, read),
    {
        let ip = match e.ip_version {
            4 => {
                let octets: [u8; 4] = [e.addr[0], e.addr[1], e.addr[2], e.addr[3]];
                assert(octets@ =~= e.addr@.subrange(0, 4));
                IpAddr::V4(octets)
            },
            6 => IpAddr::V6(e.addr),
            v => {
                return Err(WireError::IpVersion(v));
            },
        };
        if e.kind == EventKind::Drop.code() {
            Ok(WatchEvent::Drop { ts_ns: e.ts_ns, ip, ip_version: e.ip_version })
        } else {
            Err(WireError::Kind(e.kind))
        }
    }
}

impl WireError {
    /// The error in words.
    pub fn message(&self) -> (text: String)
        ensures
            text@ == (match *self {
                WireError::IpVersion(v) => "invalid ip version on wire: "@ + decimal_of(v as nat),
                WireError::Kind(k) => "invalid event kind on wire: "@ + decimal_of(k as nat),
            }),
    {
        proof {
            reveal_strlit("");
        }
        match self {
            WireError::IpVersion(v) => {
                let text = around("invalid ip version on wire: ", *v as u64, "");
                assert(text@ =~= "invalid ip version on wire: "@ + decimal_of(*v as nat));
                text
            },
            WireError::Kind(k) => {
                let text = around("invalid event kind on wire: ", *k as u64, "");
                assert(text@ =~= "invalid event kind on wire: "@ + decimal_of(*k as nat));
                text
            },
        }
    }
}

fn number(b: [u8; 8]) -> (value: u64)
    ensures
        value == number_of(b@),
{
    b[0] as u64 + b[1] as u64 * 0x100 + b[2] as u64 * 0x1_0000 + b[3] as u64 * 0x100_0000 + b[4]
        as u64 * 0x1_0000_0000 + b[5] as u64 * 0x100_0000_0000 + b[6] as u64 * 0x1_0000_0000_0000
        + b[7] as u64 * 0x100_0000_0000_0000
}

/// Takes the event at the beginning of a record apart; `order` is that of the machine that
/// wrote it. A record shorter than an event holds none; bytes beyond one are ignored.
pub fn decode_event(bytes: &[u8], order: ByteOrder) -> (event: Option<ImpEvent>)
    ensures
        event is Some <==> bytes@.len() >= IMP_EVENT_LEN,
        event matches Some(e) ==> is_event_in(e, bytes@, order),
{
    if bytes.len() < IMP_EVENT_LEN {
        return None;
    }
    let b = bytes;
    let ghost time = bytes@.subrange(0, 8);
    let ts_ns: u64 = match order {
        ByteOrder::Little => {
            let field: [u8; 8] = [b[0], b[1], b[2], b[3], b[4], b[5], b[6], b[7]];
            assert(field@ =~= time);
            number(field)
        },
        ByteOrder::Big => {
            let field: [u8; 8] = [b[7], b[6], b[5], b[4], b[3], b[2], b[1], b[0]];
            assert(field@ =~= time.reverse());
            number(field)
        },
    };
    let addr: [u8; 16] = [
        b[8], b[9], b[10], b[11], b[12], b[13], b[14], b[15], b[16], b[17], b[18], b[19], b[20],
        b[21], b[22], b[23],
    ];
    assert(addr@ =~= bytes@.subrange(8, 24));
    Some(ImpEvent { ts_ns, addr, kind: b[24], ip_version: b[25] })
}

/// What becomes of a record: one too short for an event is skipped, any other is read.
pub fn watch_record(bytes: &[u8], order: ByteOrder) -> (record: Record)
    ensures
        record is Short <==> bytes@.len() < IMP_EVENT_LEN,
        bytes@.len() >= IMP_EVENT_LEN ==> exists|event: ImpEvent| #[trigger]
            is_event_in(event, bytes@, order) && is_record_of(record, event),
{
    match decode_event(bytes, order) {
        None => Record::Short,
        Some(raw) => match WatchEvent::from_wire(&raw) {
            Ok(event) => {
                assert(is_event_in(raw, bytes@, order));
                Record::Event(event)
            },
            Err(error) => {
                assert(is_event_in(raw, bytes@, order));
                Record::Malformed(error)
            },
        },
    }
}

/// The line for an event.
pub open spec fn event_line(event: WatchEvent) -> Seq<PieceView> {
    match event {
        WatchEvent::Drop { ts_ns, ip, .. } => seq![
            PieceView::Text("["@ + decimal_of(ts_ns as nat) + "] DROP "@),
            PieceView::Ip(ip),
            PieceView::Text("\n"@),
        ],
    }
}

/// Lays out the line for an event.
pub fn print_event(event: &WatchEvent) -> (line: Vec<Piece>)
    ensures
        shown(line@) == event_line(*event),
{
    match event {
        WatchEvent::Drop { ts_ns, ip, .. } => {
            let mut line: Vec<Piece> = Vec::new();
            line.push(Piece::Text(around("[", *ts_ns, "] DROP ")));
            line.push(Piece::Ip(*ip));
            line.push(Piece::Text(String::from_str("\n")));
            assert(shown(line@) =~= event_line(*event));
            line
        },
    }
}

/// The bytes of a record determine the event in it.
pub proof fn law_record_has_one_reading(
    bytes: Seq<u8>,
    order: ByteOrder,
    a: ImpEvent,
    b: ImpEvent,
)
    requires
        is_event_in(a, bytes, order),
        is_event_in(b, bytes, order),
    ensures
        a == b,
{
    broadcast use axiom_array_ext_equal;

    assert forall|i: int| 0 <= i < 16 implies a.addr[i] == b.addr[i] by {
        assert(a.addr@[i] == b.addr@[i]);
    }
    assert(a.addr =~= b.addr);
}

/// Where each field of an event stands in a record, and how the time is spelt in either order.
pub proof fn law_fields_stand_where_they_belong(
    event: ImpEvent,
    bytes: Seq<u8>,
    order: ByteOrder,
    i: int,
)
    requires
        bytes.len() >= 32,
        is_event_in(event, bytes, order),
        0 <= i < 16,
    ensures
        event.addr@[i] == bytes[8 + i],
        event.kind == bytes[24],
        event.ip_version == bytes[25],
        order == ByteOrder::Little ==> event.ts_ns == bytes[0] + 256 * (bytes[1] + 256 * (bytes[2]
            + 256 * (bytes[3] + 256 * (bytes[4] + 256 * (bytes[5] + 256 * (bytes[6] + 256
            * bytes[7])))))),
        order == ByteOrder::Big ==> event.ts_ns == bytes[7] + 256 * (bytes[6] + 256 * (bytes[5]
            + 256 * (bytes[4] + 256 * (bytes[3] + 256 * (bytes[2] + 256 * (bytes[1] + 256
            * bytes[0])))))),
{
    assert(event.addr@[i] == bytes.subrange(8, 24)[i]);
}

/// An event is read whatever its time and address: refused by its version first, then by its
/// kind, and otherwise shown with its own time, version and address.
pub proof fn law_version_and_kind_decide(event: ImpEvent, read: Result<WatchEvent, WireError>)
    requires
        is_read(event, read),
    ensures
        read is Ok <==> (event.ip_version == 4 || event.ip_version == 6) && event.kind == 0,
        read matches Err(WireError::IpVersion(v)) ==> v == event.ip_version && v != 4 && v != 6,
        read matches Err(WireError::Kind(k)) ==> k == event.kind && k != 0 && (event.ip_version
            == 4 || event.ip_version == 6),
        read matches Ok(WatchEvent::Drop { ts_ns, ip, ip_version }) ==> ts_ns == event.ts_ns
            && ip_version == event.ip_version && (event.ip_version == 4 ==> (ip matches IpAddr::V4(
            octets,
        ) && octets@[0] == event.addr@[0] && octets@[1] == event.addr@[1] && octets@[2]
            == event.addr@[2] && octets@[3] == event.addr@[3])) && (event.ip_version == 6 ==> ip
            == IpAddr::V6(event.addr)),
{
    let head = event.addr@.subrange(0, 4);
    assert(head[0] == event.addr@[0] && head[1] == event.addr@[1] && head[2] == event.addr@[2]
        && head[3] == event.addr@[3]);
}

/// A record long enough for an event is never skipped: it is shown or reported as malformed by
/// the version and kind that its bytes name.
pub proof fn law_records_are_read_by_their_bytes(
    record: Record,
    event: ImpEvent,
    bytes: Seq<u8>,
    order: ByteOrder,
)
    requires
        bytes.len() >= 32,
        is_event_in(event, bytes, order),
        is_record_of(record, event),
    ensures
        record is Event <==> (bytes[25] == 4 || bytes[25] == 6) && bytes[24] == 0,
        record matches Record::Malformed(WireError::IpVersion(v)) ==> v == bytes[25] && v != 4 && v
            != 6,
        record matches Record::Malformed(WireError::Kind(k)) ==> k == bytes[24] && k != 0,
        !(record is Short),
        record matches Record::Event(WatchEvent::Drop { ts_ns, ip, ip_version }) ==> ts_ns
            == event.ts_ns && ip_version == bytes[25] && match ip {
            IpAddr::V4(octets) => bytes[25] == 4 && forall|i: int|
                0 <= i < 4 ==> #[trigger] octets@[i] == bytes[8 + i],
            IpAddr::V6(octets) => bytes[25] == 6 && forall|i: int|
                0 <= i < 16 ==> #[trigger] octets@[i] == bytes[8 + i],
        },
{
    law_fields_stand_where_they_belong(event, bytes, order, 0);
    assert forall|i: int| 0 <= i < 16 implies #[trigger] event.addr@[i] == bytes[8 + i] by {
        law_fields_stand_where_they_belong(event, bytes, order, i);
    }
}

/// The line for an event shows the time in full, then the address.
pub proof fn law_line_shows_time_and_address(ts_ns: u64, ip: IpAddr, ip_version: u8)
    ensures
        ({
            let line = event_line(WatchEvent::Drop { ts_ns, ip, ip_version });
            &&& line.len() == 3
            &&& line[0] == PieceView::Text("["@ + decimal_of(ts_ns as nat) + "] DROP "@)
            &&& line[1] == PieceView::Ip(ip)
            &&& line[2] == PieceView::Text("\n"@)
        }),
{
}

} // verus!
