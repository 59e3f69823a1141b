//! What the models of entries, events, summaries and errors show: every field as it is.

use vstd::prelude::*;

use crate::entry::{entry_views, SwarmActivityIds, SwarmActivityLedgerEntry};
use crate::hotspots::{HotspotView, SwarmActivityHotspot};
use crate::jsonl::{FaultView, SwarmActivityLedgerError};
use crate::ordered::views;
use crate::redaction::{text_pairs, SwarmActivityRedaction};
use crate::sketch::{SketchParts, SwarmActivitySummary};
use crate::timeline::SwarmActivityTimelineEvent;

verus! {

/// Whether an optional text is that of an optional string.
pub open spec fn shows(text: Option<Seq<char>>, string: Option<String>) -> bool {
    match string {
        Some(s) => text == Some(s@),
        None => text is None,
    }
}

/// The model of identifiers shows each of them.
pub proof fn models_show_identifiers(ids: SwarmActivityIds)
    ensures
        ids@.correlation_id == ids.correlation_id@,
        shows(ids@.bead_id, ids.bead_id),
        shows(ids@.mail_thread_id, ids.mail_thread_id),
        ids@.mail_message_id == ids.mail_message_id,
        shows(ids@.agent_name, ids.agent_name),
        ids@.file_reservation_id == ids.file_reservation_id,
        shows(ids@.rch_job_id, ids.rch_job_id),
        shows(ids@.verification_id, ids.verification_id),
        shows(ids@.git_sha, ids.git_sha),
{
}

/// The model of a redaction shows its number and its names.
pub proof fn models_show_redactions(redaction: SwarmActivityRedaction, i: int)
    requires
        0 <= i < redaction.redacted_fields@.len(),
    ensures
        redaction@.redacted_count == redaction.redacted_count,
        redaction@.redacted_fields.len() == redaction.redacted_fields@.len(),
        redaction@.redacted_fields[i] == redaction.redacted_fields@[i]@,
{
}

/// The model of an entry shows each of its fields.
pub proof fn models_show_entries(entry: SwarmActivityLedgerEntry)
    ensures
        entry@.schema == entry.schema@,
        entry@.sequence == entry.sequence,
        entry@.timestamp_ms == entry.timestamp_ms,
        entry@.kind == entry.kind,
        entry@.summary == entry.summary@,
        entry@.ids == entry.ids@,
        entry@.details == entry.details@,
        entry@.redaction == entry.redaction@,
{
}

/// The model of an event shows each of its fields.
pub proof fn models_show_events(event: SwarmActivityTimelineEvent)
    ensures
        event@.sequence == event.sequence,
        event@.timestamp_ms == event.timestamp_ms,
        event@.kind == event.kind,
        event@.correlation_id == event.correlation_id@,
        event@.summary == event.summary@,
{
}

/// Whether the models of hot spots show each key with its count.
pub open spec fn shows_hotspots(
    models: Seq<HotspotView>,
    hotspots: Seq<SwarmActivityHotspot>,
) -> bool {
    &&& models.len() == hotspots.len()
    &&& forall|i: int|
        0 <= i < models.len() ==> (#[trigger] models[i]).key == hotspots[i].key@ && models[i].count
            == hotspots[i].count
}

/// The model of a summary shows each of its fields.
pub proof fn models_show_summaries(summary: SwarmActivitySummary)
    ensures
        summary@.schema == summary.schema@,
        summary@.event_count == summary.event_count,
        summary@.redacted_entry_count == summary.redacted_entry_count,
        summary@.redacted_field_count == summary.redacted_field_count,
        summary@.kind_counts == summary.kind_counts@,
        shows_hotspots(summary@.agent_hotspots, summary.agent_hotspots@),
        shows_hotspots(summary@.bead_hotspots, summary.bead_hotspots@),
        shows_hotspots(summary@.verification_hotspots, summary.verification_hotspots@),
        shows_hotspots(summary@.tool_hotspots, summary.tool_hotspots@),
        shows_hotspots(summary@.provider_hotspots, summary.provider_hotspots@),
        shows_hotspots(summary@.detail_hotspots, summary.detail_hotspots@),
        summary@.latency_ms == summary.latency_ms,
{
}

/// The model of an error shows its kind, its line and its schema.
pub proof fn models_show_errors(error: SwarmActivityLedgerError)
    ensures
        error matches SwarmActivityLedgerError::Parse { line, source } ==> error@ == (
        FaultView::Parse { line: line as int, is_json: source is NotAnEntry }),
        error matches SwarmActivityLedgerError::UnsupportedSchema { line, schema } ==> error@ == (
        FaultView::UnsupportedSchema { line: line as int, schema: schema@ }),
        error matches SwarmActivityLedgerError::MissingCorrelationId { line } ==> error@ == (
        FaultView::MissingCorrelationId { line: line as int }),
{
}

/// The models of lists show every item, in its place.
pub proof fn models_show_lists(
    entries: Seq<SwarmActivityLedgerEntry>,
    events: Seq<SwarmActivityTimelineEvent>,
    pairs: Seq<(&str, &str)>,
    i: int,
)
    ensures
        entry_views(entries).len() == entries.len(),
        views(events).len() == events.len(),
        text_pairs(pairs).len() == pairs.len(),
        0 <= i < entries.len() ==> entry_views(entries)[i] == entries[i]@,
        0 <= i < events.len() ==> views(events)[i] == events[i]@,
        0 <= i < pairs.len() ==> text_pairs(pairs)[i] == (pairs[i].0@, pairs[i].1@),
{
}

/// The model of what a sketch holds shows each part of it.
pub proof fn models_show_parts(parts: SketchParts)
    ensures
        parts@.schema == parts.schema@,
        parts@.config == parts.config,
        parts@.event_count == parts.event_count,
        parts@.redacted_entry_count == parts.redacted_entry_count,
        parts@.redacted_field_count == parts.redacted_field_count,
        parts@.kind_counts == parts.kind_counts@,
        parts@.agent_counts == parts.agent_counts@,
        parts@.bead_counts == parts.bead_counts@,
        parts@.verification_counts == parts.verification_counts@,
        parts@.tool_counts == parts.tool_counts@,
        parts@.provider_counts == parts.provider_counts@,
        parts@.detail_counts == parts.detail_counts@,
        parts@.latency_ms.capacity == parts.latency_ms.capacity,
        parts@.latency_ms.sample_count == parts.latency_ms.sample_count,
        parts@.latency_ms.buckets == parts.latency_ms.buckets@,
        parts@.latency_ms.min_ms == parts.latency_ms.min_ms,
        parts@.latency_ms.max_ms == parts.latency_ms.max_ms,
        parts@.latency_ms.ranges.counts == parts.latency_ms.ranges.counts@,
        parts@.latency_ms.ranges.highs == parts.latency_ms.ranges.highs@,
{
}

} // verus!
