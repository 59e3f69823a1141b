//! What holds of every timeline.

use vstd::prelude::*;

use crate::entry::{EntryView, SwarmActivityKind};
use crate::jsonl::{admission, admitted, row_entry};
use crate::ordered::{keeping_as_many, mapping_keeps_items, order_exists, order_is_unique, Ordered};
use crate::text::trimmed;
use crate::text_laws::{reads_before, texts_go_by_their_first_difference};
use crate::timeline::{
    event_of, events_of, is_timeline, timeline, EventView, SwarmActivityTimelineEvent,
};

verus! {

/// Every list of entries has a timeline: the events of all entries, each as often as its entry
/// stands there, none ahead of one that comes before it.
pub proof fn timeline_exists(entries: Seq<EntryView>)
    ensures
        is_timeline(entries, timeline(entries)),
        timeline(entries).len() == entries.len(),
{
    broadcast use vstd::seq_lib::group_to_multiset_ensures;

    let events = order_exists::<SwarmActivityTimelineEvent>(events_of(entries));
    assert(is_timeline(entries, events));
    assert(timeline(entries).to_multiset().len() == timeline(entries).len());
    assert(events_of(entries).to_multiset().len() == entries.len());
}

/// A timeline ascends by timestamp, where timestamps agree by sequence, and where sequences agree
/// too by correlation ID.
pub proof fn timeline_ascends(entries: Seq<EntryView>, i: int, j: int)
    requires
        0 <= i < j < entries.len(),
    ensures
        timeline(entries).len() == entries.len(),
        timeline(entries)[i].timestamp_ms <= timeline(entries)[j].timestamp_ms,
        timeline(entries)[i].timestamp_ms == timeline(entries)[j].timestamp_ms ==> timeline(
            entries,
        )[i].sequence <= timeline(entries)[j].sequence,
        timeline(entries)[i].timestamp_ms == timeline(entries)[j].timestamp_ms && timeline(
            entries,
        )[i].sequence == timeline(entries)[j].sequence ==> !String::precedes(
            timeline(entries)[j].correlation_id,
            timeline(entries)[i].correlation_id,
        ),
{
    timeline_exists(entries);
    String::order_is_irreflexive(timeline(entries)[i].correlation_id);
}

/// Every event of a timeline bears the sequence, time, kind, correlation ID and summary of an
/// entry, and every entry gives one event: field by field, the events are the entries.
pub proof fn events_bear_the_fields_of_their_entries(entries: Seq<EntryView>)
    ensures
        timeline(entries).map_values(
            |e: EventView| (e.sequence, e.timestamp_ms, e.kind, e.correlation_id, e.summary),
        ).to_multiset() == entries.map_values(
            |e: EntryView| (e.sequence, e.timestamp_ms, e.kind, e.ids.correlation_id, e.summary),
        ).to_multiset(),
{
    let f = |e: EventView| (e.sequence, e.timestamp_ms, e.kind, e.correlation_id, e.summary);
    timeline_exists(entries);
    mapping_keeps_items(timeline(entries), events_of(entries), f);
    assert(events_of(entries).map_values(f) =~= entries.map_values(
        |e: EntryView| (e.sequence, e.timestamp_ms, e.kind, e.ids.correlation_id, e.summary),
    ));
}

/// The place of a kind in the order of kinds.
pub open spec fn place_of_kind(kind: SwarmActivityKind) -> int {
    match kind {
        SwarmActivityKind::BeadStatus => 1,
        SwarmActivityKind::AgentMail => 2,
        SwarmActivityKind::FileReservation => 3,
        SwarmActivityKind::RchJob => 4,
        SwarmActivityKind::Verification => 5,
        SwarmActivityKind::GitCommit => 6,
        SwarmActivityKind::Recovery => 7,
        SwarmActivityKind::Note => 8,
    }
}

/// Of two events of a timeline, the earlier has the earlier time; where the times agree the
/// smaller sequence; where these agree the correlation ID that reads before the other; then the
/// kind that comes first; then the summary that reads before the other. Where all agree the
/// events are the same.
pub proof fn events_stand_in_order(entries: Seq<EntryView>, i: int, j: int)
    requires
        0 <= i < j < entries.len(),
    ensures
        timeline(entries).len() == entries.len(),
        ({
            let (a, b) = (timeline(entries)[i], timeline(entries)[j]);
            ||| a.timestamp_ms < b.timestamp_ms
            ||| a.timestamp_ms == b.timestamp_ms && {
                ||| a.sequence < b.sequence
                ||| a.sequence == b.sequence && {
                    ||| reads_before(a.correlation_id, b.correlation_id)
                    ||| a.correlation_id == b.correlation_id && {
                        ||| place_of_kind(a.kind) < place_of_kind(b.kind)
                        ||| a.kind == b.kind && (reads_before(a.summary, b.summary) || a.summary
                            == b.summary)
                    }
                }
            }
        }),
{
    timeline_exists(entries);
    let (a, b) = (timeline(entries)[i], timeline(entries)[j]);
    SwarmActivityTimelineEvent::order_is_total(a, b);
    texts_go_by_their_first_difference(a.correlation_id, b.correlation_id);
    texts_go_by_their_first_difference(a.summary, b.summary);
}

/// The timeline does not depend on the order of the entries.
pub proof fn timeline_ignores_row_order(a: Seq<EntryView>, b: Seq<EntryView>)
    requires
        a.to_multiset() == b.to_multiset(),
    ensures
        timeline(a) == timeline(b),
{
    timeline_exists(a);
    timeline_exists(b);
    mapping_keeps_items(a, b, |e: EntryView| event_of(e));
    order_is_unique::<SwarmActivityTimelineEvent>(timeline(a), timeline(b));
}

/// The lines that are not blank.
pub open spec fn filled(rows: Seq<Seq<char>>) -> Seq<Seq<char>> {
    rows.filter(|row: Seq<char>| trimmed(row).len() > 0)
}

/// Whether a line stands for an entry that can be admitted.
pub open spec fn row_reads(row: Seq<char>) -> bool {
    row_entry(row) is Some && admission(0, row_entry(row)->0) is Ok
}

/// Lines are read where all that are not blank are, and then their entries are those of the lines
/// that are not blank, one by one.
pub proof fn admitted_line_by_line(rows: Seq<Seq<char>>)
    ensures
        admitted(rows) is Ok <==> forall|i: int|
            0 <= i < filled(rows).len() ==> row_reads(#[trigger] filled(rows)[i]),
        admitted(rows) is Ok ==> admitted(rows)->Ok_0 == filled(rows).map_values(
            |row: Seq<char>| row_entry(row)->0,
        ),
    decreases rows.len(),
{
    reveal(Seq::filter);
    if rows.len() > 0 {
        let init = rows.drop_last();
        let row = rows.last();
        admitted_line_by_line(init);
        if trimmed(row).len() > 0 {
            assert(filled(rows)[filled(init).len() as int] == row);
            assert forall|i: int| 0 <= i < filled(init).len() implies #[trigger] filled(init)[i]
                == filled(rows)[i] by {}
        }
    }
}

/// The timeline of JSONL does not depend on the order of its lines: where one order of them is
/// read, every other is, and the timelines agree.
pub proof fn jsonl_timeline_ignores_line_order(a: Seq<Seq<char>>, b: Seq<Seq<char>>)
    requires
        a.to_multiset() == b.to_multiset(),
        admitted(a) is Ok,
    ensures
        admitted(b) is Ok,
        timeline(admitted(a)->Ok_0) == timeline(admitted(b)->Ok_0),
{
    broadcast use vstd::seq_lib::group_to_multiset_ensures;

    let keep = |row: Seq<char>| trimmed(row).len() > 0;
    let f = |row: Seq<char>| row_entry(row)->0;
    admitted_line_by_line(a);
    admitted_line_by_line(b);
    keeping_as_many(a, b, keep);
    assert forall|i: int| 0 <= i < filled(b).len() implies row_reads(#[trigger] filled(b)[i]) by {
        let row = filled(b)[i];
        assert(filled(a).to_multiset().count(row) > 0);
    }
    mapping_keeps_items(filled(a), filled(b), f);
    timeline_ignores_row_order(admitted(a)->Ok_0, admitted(b)->Ok_0);
}

} // verus!
