//! The report of a snapshot for a human reader.

use crate::addr::IpAddr;
use crate::inspect::{AllowedRecord, BlockedRecord, InspectOutput, PacketCountRecord};
use crate::text::{around, decimal_of, shown, Piece, PieceView};
use vstd::prelude::*;
use vstd::string::*;

verus! {

/// The lines for an address and the number kept for it.
pub open spec fn row(ip: IpAddr, label: Seq<char>, number: nat) -> Seq<PieceView> {
    seq![
        PieceView::Text("* "@),
        PieceView::Ip(ip),
        PieceView::Text(label + decimal_of(number) + "\n"@),
    ]
}

/// The line for an address alone.
pub open spec fn bare_row(ip: IpAddr) -> Seq<PieceView> {
    seq![PieceView::Text("* "@), PieceView::Ip(ip), PieceView::Text("\n"@)]
}

/// The lines for the allowed peers.
pub open spec fn allowed_rows(records: Seq<AllowedRecord>) -> Seq<PieceView>
    decreases records.len(),
{
    if records.len() == 0 {
        Seq::empty()
    } else {
        allowed_rows(records.drop_last()) + row(
            records.last().ip,
            "\n\t- Rep Score: "@,
            records.last().score as nat,
        )
    }
}

/// The lines for the blocked sources.
pub open spec fn blocked_rows(records: Seq<BlockedRecord>) -> Seq<PieceView>
    decreases records.len(),
{
    if records.len() == 0 {
        Seq::empty()
    } else {
        blocked_rows(records.drop_last()) + row(
            records.last().ip,
            "\n\t- Hits: "@,
            records.last().hits as nat,
        )
    }
}

/// The lines for the packet counts.
pub open spec fn count_rows(records: Seq<PacketCountRecord>) -> Seq<PieceView>
    decreases records.len(),
{
    if records.len() == 0 {
        Seq::empty()
    } else {
        count_rows(records.drop_last()) + row(
            records.last().ip,
            "\n\t Total: "@,
            records.last().total as nat,
        )
    }
}

/// The lines for the unknown sources.
pub open spec fn unknown_rows(ips: Seq<IpAddr>) -> Seq<PieceView>
    decreases ips.len(),
{
    if ips.len() == 0 {
        Seq::empty()
    } else {
        unknown_rows(ips.drop_last()) + bare_row(ips.last())
    }
}

/// The whole report: four sections, each under its title.
pub open spec fn report_of(output: InspectOutput) -> Seq<PieceView> {
    seq![PieceView::Text("=== ALLOWED ===\n"@)] + allowed_rows(output.allowed@)
        + seq![PieceView::Text("\n=== BLOCKED ===\n"@)] + blocked_rows(output.blocked@)
        + seq![PieceView::Text("\n=== PACKET COUNTS ===\n"@)] + count_rows(output.packet_counts@)
        + seq![PieceView::Text("\n=== UNKNOWN BUCKETS ===\n"@)] + unknown_rows(
        output.unknown_buckets@,
    )
}

fn push_text(out: &mut Vec<Piece>, text: &str)
    ensures
        shown(final(out)@) == shown(old(out)@) + seq![PieceView::Text(text@)],
{
    out.push(Piece::Text(String::from_str(text)));
    assert(shown(out@) =~= shown(old(out)@) + seq![PieceView::Text(text@)]);
}

fn push_row(out: &mut Vec<Piece>, ip: IpAddr, label: &str, number: u64)
    ensures
        shown(final(out)@) == shown(old(out)@) + row(ip, label@, number as nat),
{
    out.push(Piece::Text(String::from_str("* ")));
    out.push(Piece::Ip(ip));
    out.push(Piece::Text(around(label, number, "\n")));
    assert(shown(out@) =~= shown(old(out)@) + row(ip, label@, number as nat));
}

fn push_bare_row(out: &mut Vec<Piece>, ip: IpAddr)
    ensures
        shown(final(out)@) == shown(old(out)@) + bare_row(ip),
{
    out.push(Piece::Text(String::from_str("* ")));
    out.push(Piece::Ip(ip));
    out.push(Piece::Text(String::from_str("\n")));
    assert(shown(out@) =~= shown(old(out)@) + bare_row(ip));
}

fn push_allowed(out: &mut Vec<Piece>, records: &Vec<AllowedRecord>)
    ensures
        shown(final(out)@) == shown(old(out)@) + allowed_rows(records@),
{
    let mut i: usize = 0;
    assert(shown(out@) =~= shown(old(out)@) + allowed_rows(records@.take(0)));
    while i < records.len()
        invariant
            0 <= i <= records@.len(),
            shown(out@) == shown(old(out)@) + allowed_rows(records@.take(i as int)),
        decreases records@.len() - i,
    {
        assert(records@.take(i + 1).drop_last() =~= records@.take(i as int));
        push_row(out, records[i].ip, "\n\t- Rep Score: ", records[i].score as u64);
        assert(shown(out@) =~= shown(old(out)@) + allowed_rows(records@.take(i + 1)));
        i = i + 1;
    }
    assert(records@.take(records@.len() as int) =~= records@);
}

fn push_blocked(out: &mut Vec<Piece>, records: &Vec<BlockedRecord>)
    ensures
        shown(final(out)@) == shown(old(out)@) + blocked_rows(records@),
{
    let mut i: usize = 0;
    assert(shown(out@) =~= shown(old(out)@) + blocked_rows(records@.take(0)));
    while i < records.len()
        invariant
            0 <= i <= records@.len(),
            shown(out@) == shown(old(out)@) + blocked_rows(records@.take(i as int)),
        decreases records@.len() - i,
    {
        assert(records@.take(i + 1).drop_last() =~= records@.take(i as int));
        push_row(out, records[i].ip, "\n\t- Hits: ", records[i].hits);
        assert(shown(out@) =~= shown(old(out)@) + blocked_rows(records@.take(i + 1)));
        i = i + 1;
    }
    assert(records@.take(records@.len() as int) =~= records@);
}

fn push_counts(out: &mut Vec<Piece>, records: &Vec<PacketCountRecord>)
    ensures
        shown(final(out)@) == shown(old(out)@) + count_rows(records@),
{
    let mut i: usize = 0;
    assert(shown(out@) =~= shown(old(out)@) + count_rows(records@.take(0)));
    while i < records.len()
        invariant
            0 <= i <= records@.len(),
            shown(out@) == shown(old(out)@) + count_rows(records@.take(i as int)),
        decreases records@.len() - i,
    {
        assert(records@.take(i + 1).drop_last() =~= records@.take(i as int));
        push_row(out, records[i].ip, "\n\t Total: ", records[i].total);
        assert(shown(out@) =~= shown(old(out)@) + count_rows(records@.take(i + 1)));
        i = i + 1;
    }
    assert(records@.take(records@.len() as int) =~= records@);
}

fn push_unknown(out: &mut Vec<Piece>, ips: &Vec<IpAddr>)
    ensures
        shown(final(out)@) == shown(old(out)@) + unknown_rows(ips@),
{
    let mut i: usize = 0;
    assert(shown(out@) =~= shown(old(out)@) + unknown_rows(ips@.take(0)));
    while i < ips.len()
        invariant
            0 <= i <= ips@.len(),
            shown(out@) == shown(old(out)@) + unknown_rows(ips@.take(i as int)),
        decreases ips@.len() - i,
    {
        assert(ips@.take(i + 1).drop_last() =~= ips@.take(i as int));
        push_bare_row(out, ips[i]);
        assert(shown(out@) =~= shown(old(out)@) + unknown_rows(ips@.take(i + 1)));
        i = i + 1;
    }
    assert(ips@.take(ips@.len() as int) =~= ips@);
}

/// Lays out the report of a snapshot.
pub fn print_human(output: &InspectOutput) -> (report: Vec<Piece>)
    ensures
        shown(report@) == report_of(*output),
{
    let mut report: Vec<Piece> = Vec::new();
    push_text(&mut report, "=== ALLOWED ===\n");
    push_allowed(&mut report, &output.allowed);
    push_text(&mut report, "\n=== BLOCKED ===\n");
    push_blocked(&mut report, &output.blocked);
    push_text(&mut report, "\n=== PACKET COUNTS ===\n");
    push_counts(&mut report, &output.packet_counts);
    push_text(&mut report, "\n=== UNKNOWN BUCKETS ===\n");
    push_unknown(&mut report, &output.unknown_buckets);
    assert(shown(report@) =~= report_of(*output));
    report
}

proof fn lemma_allowed_rows(records: Seq<AllowedRecord>)
    ensures
        allowed_rows(records).len() == 3 * records.len(),
        forall|i: int|
            #![trigger records[i]]
            0 <= i < records.len() ==> allowed_rows(records).subrange(3 * i, 3 * i + 3) == row(
                records[i].ip,
                "\n\t- Rep Score: "@,
                records[i].score as nat,
            ),
    decreases records.len(),
{
    if records.len() > 0 {
        let rest = records.drop_last();
        lemma_allowed_rows(rest);
        assert forall|i: int|
            #![trigger records[i]]
            0 <= i < records.len() implies allowed_rows(records).subrange(3 * i, 3 * i + 3)
            == row(records[i].ip, "\n\t- Rep Score: "@, records[i].score as nat) by {
            if i < rest.len() {
                assert(rest[i] == records[i]);
                assert(allowed_rows(records).subrange(3 * i, 3 * i + 3) =~= allowed_rows(
                    rest,
                ).subrange(3 * i, 3 * i + 3));
            } else {
                assert(allowed_rows(records).subrange(3 * i, 3 * i + 3) =~= row(
                    records.last().ip,
                    "\n\t- Rep Score: "@,
                    records.last().score as nat,
                ));
            }
        }
    }
}

proof fn lemma_blocked_rows(records: Seq<BlockedRecord>)
    ensures
        blocked_rows(records).len() == 3 * records.len(),
        forall|i: int|
            #![trigger records[i]]
            0 <= i < records.len() ==> blocked_rows(records).subrange(3 * i, 3 * i + 3) == row(
                records[i].ip,
                "\n\t- Hits: "@,
                records[i].hits as nat,
            ),
    decreases records.len(),
{
    if records.len() > 0 {
        let rest = records.drop_last();
        lemma_blocked_rows(rest);
        assert forall|i: int|
            #![trigger records[i]]
            0 <= i < records.len() implies blocked_rows(records).subrange(3 * i, 3 * i + 3)
            == row(records[i].ip, "\n\t- Hits: "@, records[i].hits as nat) by {
            if i < rest.len() {
                assert(rest[i] == records[i]);
                assert(blocked_rows(records).subrange(3 * i, 3 * i + 3) =~= blocked_rows(
                    rest,
                ).subrange(3 * i, 3 * i + 3));
            } else {
                assert(blocked_rows(records).subrange(3 * i, 3 * i + 3) =~= row(
                    records.last().ip,
                    "\n\t- Hits: "@,
                    records.last().hits as nat,
                ));
            }
        }
    }
}

proof fn lemma_count_rows(records: Seq<PacketCountRecord>)
    ensures
        count_rows(records).len() == 3 * records.len(),
        forall|i: int|
            #![trigger records[i]]
            0 <= i < records.len() ==> count_rows(records).subrange(3 * i, 3 * i + 3) == row(
                records[i].ip,
                "\n\t Total: "@,
                records[i].total as nat,
            ),
    decreases records.len(),
{
    if records.len() > 0 {
        let rest = records.drop_last();
        lemma_count_rows(rest);
        assert forall|i: int|
            #![trigger records[i]]
            0 <= i < records.len() implies count_rows(records).subrange(3 * i, 3 * i + 3) == row(
            records[i].ip,
            "\n\t Total: "@,
            records[i].total as nat,
        ) by {
            if i < rest.len() {
                assert(rest[i] == records[i]);
                assert(count_rows(records).subrange(3 * i, 3 * i + 3) =~= count_rows(
                    rest,
                ).subrange(3 * i, 3 * i + 3));
            } else {
                assert(count_rows(records).subrange(3 * i, 3 * i + 3) =~= row(
                    records.last().ip,
                    "\n\t Total: "@,
                    records.last().total as nat,
                ));
            }
        }
    }
}

proof fn lemma_unknown_rows(ips: Seq<IpAddr>)
    ensures
        unknown_rows(ips).len() == 3 * ips.len(),
        forall|i: int|
            #![trigger ips[i]]
            0 <= i < ips.len() ==> unknown_rows(ips).subrange(3 * i, 3 * i + 3) == bare_row(
                ips[i],
            ),
    decreases ips.len(),
{
    if ips.len() > 0 {
        let rest = ips.drop_last();
        lemma_unknown_rows(rest);
        assert forall|i: int|
            #![trigger ips[i]]
            0 <= i < ips.len() implies unknown_rows(ips).subrange(3 * i, 3 * i + 3) == bare_row(
            ips[i],
        ) by {
            if i < rest.len() {
                assert(rest[i] == ips[i]);
                assert(unknown_rows(ips).subrange(3 * i, 3 * i + 3) =~= unknown_rows(
                    rest,
                ).subrange(3 * i, 3 * i + 3));
            } else {
                assert(unknown_rows(ips).subrange(3 * i, 3 * i + 3) =~= bare_row(ips.last()));
            }
        }
    }
}

/// The report has its four titles, each before its own section, and three pieces per record and
/// no more: nothing is left out however long a section is.
pub proof fn law_report_has_its_titles(output: InspectOutput)
    ensures
        ({
            let report = report_of(output);
            let blocked: int = 1 + 3 * (output.allowed@.len() as int);
            let counts: int = blocked + 1 + 3 * output.blocked@.len();
            let unknown: int = counts + 1 + 3 * output.packet_counts@.len();
            &&& report.len() == unknown + 1 + 3 * output.unknown_buckets@.len()
            &&& report[0] == PieceView::Text("=== ALLOWED ===\n"@)
            &&& report[blocked] == PieceView::Text("\n=== BLOCKED ===\n"@)
            &&& report[counts] == PieceView::Text("\n=== PACKET COUNTS ===\n"@)
            &&& report[unknown] == PieceView::Text("\n=== UNKNOWN BUCKETS ===\n"@)
        }),
{
    lemma_allowed_rows(output.allowed@);
    lemma_blocked_rows(output.blocked@);
    lemma_count_rows(output.packet_counts@);
    lemma_unknown_rows(output.unknown_buckets@);
}

/// Every allowed peer of the snapshot has its lines, at its own place: the address and the
/// score in full.
pub proof fn law_report_shows_each_peer(output: InspectOutput, i: int)
    requires
        0 <= i < output.allowed@.len(),
    ensures
        ({
            let at: int = 1 + 3 * i;
            &&& report_of(output)[at] == PieceView::Text("* "@)
            &&& report_of(output)[at + 1] == PieceView::Ip(output.allowed@[i].ip)
            &&& report_of(output)[at + 2] == PieceView::Text(
                "\n\t- Rep Score: "@ + decimal_of(output.allowed@[i].score as nat) + "\n"@,
            )
        }),
{
    lemma_allowed_rows(output.allowed@);
    let at: int = 1 + 3 * i;
    let line = allowed_rows(output.allowed@).subrange(3 * i, 3 * i + 3);
    assert(line.len() == 3);
    assert forall|k: int| 0 <= k < 3 implies #[trigger] line[k] == report_of(output)[at + k] by {
        assert(line[k] == allowed_rows(output.allowed@)[3 * i + k]);
    }
    assert(line[0] == report_of(output)[at + 0]);
    assert(line[1] == report_of(output)[at + 1]);
    assert(line[2] == report_of(output)[at + 2]);
}

/// Every blocked source of the snapshot has its lines, at its own place: the address and the
/// hits in full.
pub proof fn law_report_shows_each_blocked_source(output: InspectOutput, i: int)
    requires
        0 <= i < output.blocked@.len(),
    ensures
        ({
            let at: int = 2 + 3 * (output.allowed@.len() + i);
            &&& report_of(output)[at] == PieceView::Text("* "@)
            &&& report_of(output)[at + 1] == PieceView::Ip(output.blocked@[i].ip)
            &&& report_of(output)[at + 2] == PieceView::Text(
                "\n\t- Hits: "@ + decimal_of(output.blocked@[i].hits as nat) + "\n"@,
            )
        }),
{
    lemma_allowed_rows(output.allowed@);
    lemma_blocked_rows(output.blocked@);
    let at: int = 2 + 3 * (output.allowed@.len() + i);
    let line = blocked_rows(output.blocked@).subrange(3 * i, 3 * i + 3);
    assert(line.len() == 3);
    assert forall|k: int| 0 <= k < 3 implies #[trigger] line[k] == report_of(output)[at + k] by {
        assert(line[k] == blocked_rows(output.blocked@)[3 * i + k]);
    }
    assert(line[0] == report_of(output)[at + 0]);
    assert(line[1] == report_of(output)[at + 1]);
    assert(line[2] == report_of(output)[at + 2]);
}

/// Every packet count of the snapshot has its lines, at its own place: the address and the
/// total in full.
pub proof fn law_report_shows_each_count(output: InspectOutput, i: int)
    requires
        0 <= i < output.packet_counts@.len(),
    ensures
        ({
            let at: int = 3 + 3 * (output.allowed@.len() + output.blocked@.len() + i);
            &&& report_of(output)[at] == PieceView::Text("* "@)
            &&& report_of(output)[at + 1] == PieceView::Ip(output.packet_counts@[i].ip)
            &&& report_of(output)[at + 2] == PieceView::Text(
                "\n\t Total: "@ + decimal_of(output.packet_counts@[i].total as nat) + "\n"@,
            )
        }),
{
    lemma_allowed_rows(output.allowed@);
    lemma_blocked_rows(output.blocked@);
    lemma_count_rows(output.packet_counts@);
    let at: int = 3 + 3 * (output.allowed@.len() + output.blocked@.len() + i);
    let line = count_rows(output.packet_counts@).subrange(3 * i, 3 * i + 3);
    assert(line.len() == 3);
    assert forall|k: int| 0 <= k < 3 implies #[trigger] line[k] == report_of(output)[at + k] by {
        assert(line[k] == count_rows(output.packet_counts@)[3 * i + k]);
    }
    assert(line[0] == report_of(output)[at + 0]);
    assert(line[1] == report_of(output)[at + 1]);
    assert(line[2] == report_of(output)[at + 2]);
}

/// Every unknown source of the snapshot has its line, at its own place: the address alone.
pub proof fn law_report_shows_each_unknown_source(output: InspectOutput, i: int)
    requires
        0 <= i < output.unknown_buckets@.len(),
    ensures
        ({
            let at: int = 4 + 3 * (output.allowed@.len() + output.blocked@.len()
                + output.packet_counts@.len() + i);
            &&& report_of(output)[at] == PieceView::Text("* "@)
            &&& report_of(output)[at + 1] == PieceView::Ip(output.unknown_buckets@[i])
            &&& report_of(output)[at + 2] == PieceView::Text("\n"@)
        }),
{
    lemma_allowed_rows(output.allowed@);
    lemma_blocked_rows(output.blocked@);
    lemma_count_rows(output.packet_counts@);
    lemma_unknown_rows(output.unknown_buckets@);
    let at: int = 4 + 3 * (output.allowed@.len() + output.blocked@.len()
                + output.packet_counts@.len() + i);
    let line = unknown_rows(output.unknown_buckets@).subrange(3 * i, 3 * i + 3);
    assert(line.len() == 3);
    assert forall|k: int| 0 <= k < 3 implies #[trigger] line[k] == report_of(output)[at + k] by {
        assert(line[k] == unknown_rows(output.unknown_buckets@)[3 * i + k]);
    }
    assert(line[0] == report_of(output)[at + 0]);
    assert(line[1] == report_of(output)[at + 1]);
    assert(line[2] == report_of(output)[at + 2]);
}

} // verus!
