//! Deterministic timelines of ledger entries.

use vstd::prelude::*;

use crate::entry::{entry_views, EntryView, SwarmActivityKind, SwarmActivityLedgerEntry};
use crate::ordered::{in_order, order_is_unique, sorted, views, Ordered};
use crate::text::same_text;

verus! {

/// Timeline event used by replay/incident review.
#[derive(Debug, Clone, PartialEq, Eq)]
pub struct SwarmActivityTimelineEvent {
    /// Sequence of the entry in its ledger.
    pub sequence: u64,
    /// Event timestamp in Unix milliseconds.
    pub timestamp_ms: u64,
    /// Activity category.
    pub kind: SwarmActivityKind,
    /// Stable event correlation ID.
    pub correlation_id: String,
    /// Redacted summary.
    pub summary: String,
}

/// The model of a [`SwarmActivityTimelineEvent`].
#[verifier::ext_equal]
pub struct EventView {
    pub sequence: u64,
    pub timestamp_ms: u64,
    pub kind: SwarmActivityKind,
    pub correlation_id: Seq<char>,
    pub summary: Seq<char>,
}

impl View for SwarmActivityTimelineEvent {
    type V = EventView;

    open spec fn view(&self) -> EventView {
        EventView {
            sequence: self.sequence,
            timestamp_ms: self.timestamp_ms,
            kind: self.kind,
            correlation_id: self.correlation_id@,
            summary: self.summary@,
        }
    }
}

/// The timeline event of an entry.
pub open spec fn event_of(entry: EntryView) -> EventView {
    EventView {
        sequence: entry.sequence,
        timestamp_ms: entry.timestamp_ms,
        kind: entry.kind,
        correlation_id: entry.ids.correlation_id,
        summary: entry.summary,
    }
}

impl From<&SwarmActivityLedgerEntry> for SwarmActivityTimelineEvent {
    fn from(entry: &SwarmActivityLedgerEntry) -> (r: Self)
        ensures
            r@ == event_of(entry@),
            r.sequence == entry.sequence,
            r.timestamp_ms == entry.timestamp_ms,
            r.kind == entry.kind,
            r.correlation_id@ == entry.ids.correlation_id@,
            r.summary@ == entry.summary@,
    {
        SwarmActivityTimelineEvent {
            sequence: entry.sequence,
            timestamp_ms: entry.timestamp_ms,
            kind: entry.kind,
            correlation_id: entry.ids.correlation_id.as_str().to_owned(),
            summary: entry.summary.as_str().to_owned(),
        }
    }
}

impl vstd::std_specs::convert::FromSpecImpl<&SwarmActivityLedgerEntry> for SwarmActivityTimelineEvent {
    open spec fn obeys_from_spec() -> bool {
        false
    }

    open spec fn from_spec(entry: &SwarmActivityLedgerEntry) -> Self {
        arbitrary()
    }
}

impl Ordered for SwarmActivityTimelineEvent {
    /// By timestamp, then by sequence, correlation ID, category and summary.
    open spec fn precedes(a: EventView, b: EventView) -> bool {
        if a.timestamp_ms != b.timestamp_ms {
            a.timestamp_ms < b.timestamp_ms
        } else if a.sequence != b.sequence {
            a.sequence < b.sequence
        } else if a.correlation_id != b.correlation_id {
            String::precedes(a.correlation_id, b.correlation_id)
        } else if a.kind != b.kind {
            SwarmActivityKind::precedes(a.kind, b.kind)
        } else {
            String::precedes(a.summary, b.summary)
        }
    }

    proof fn order_is_irreflexive(a: EventView) {
        String::order_is_irreflexive(a.summary);
    }

    proof fn order_is_transitive(a: EventView, b: EventView, c: EventView) {
        if String::precedes(a.correlation_id, b.correlation_id) && String::precedes(
            b.correlation_id,
            c.correlation_id,
        ) {
            String::order_is_transitive(a.correlation_id, b.correlation_id, c.correlation_id);
            String::order_is_irreflexive(a.correlation_id);
        }
        if String::precedes(a.summary, b.summary) && String::precedes(b.summary, c.summary) {
            String::order_is_transitive(a.summary, b.summary, c.summary);
        }
    }

    proof fn order_is_total(a: EventView, b: EventView) {
        String::order_is_total(a.correlation_id, b.correlation_id);
        SwarmActivityKind::order_is_total(a.kind, b.kind);
        String::order_is_total(a.summary, b.summary);
    }

    fn is_before(&self, other: &Self) -> (r: bool) {
        if self.timestamp_ms != other.timestamp_ms {
            return self.timestamp_ms < other.timestamp_ms;
        }
        if self.sequence != other.sequence {
            return self.sequence < other.sequence;
        }
        if !same_text(self.correlation_id.as_str(), other.correlation_id.as_str()) {
            return self.correlation_id.is_before(&other.correlation_id);
        }
        if self.kind != other.kind {
            return self.kind.is_before(&other.kind);
        }
        self.summary.is_before(&other.summary)
    }
}

/// The events of a list of entries.
pub open spec fn events_of(entries: Seq<EntryView>) -> Seq<EventView> {
    entries.map_values(|e: EntryView| event_of(e))
}

/// Whether the events are those of all entries, in order.
pub open spec fn is_timeline(entries: Seq<EntryView>, events: Seq<EventView>) -> bool {
    &&& in_order::<SwarmActivityTimelineEvent>(events)
    &&& events.to_multiset() == events_of(entries).to_multiset()
}

/// The events of all entries, in the order of their timestamps, then of their sequences, their
/// correlation IDs, their categories and their summaries.
pub open spec fn timeline(entries: Seq<EntryView>) -> Seq<EventView> {
    choose|events: Seq<EventView>| is_timeline(entries, events)
}

/// The timeline of a list of entries.
pub fn timeline_from_entries(entries: &[SwarmActivityLedgerEntry]) -> (r: Vec<
    SwarmActivityTimelineEvent,
>)
    ensures
        is_timeline(entry_views(entries@), views(r@)),
        views(r@) == timeline(entry_views(entries@)),
{
    let ghost all = entry_views(entries@);
    let mut events: Vec<SwarmActivityTimelineEvent> = Vec::new();
    let mut i: usize = 0;
    while i < entries.len()
        invariant
            i <= entries@.len(),
            all == entry_views(entries@),
            events@.len() == i,
            forall|k: int| 0 <= k < i ==> (#[trigger] events@[k])@ == event_of(all[k]),
        decreases entries@.len() - i,
    {
        events.push(SwarmActivityTimelineEvent::from(&entries[i]));
        i += 1;
    }
    assert(views(events@) =~= events_of(all));
    let ordered = sorted(events);
    proof {
        assert(is_timeline(all, views(ordered@)));
        order_is_unique::<SwarmActivityTimelineEvent>(views(ordered@), timeline(all));
    }
    ordered
}

} // verus!
