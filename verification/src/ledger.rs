//! The ledger itself.

use vstd::prelude::*;

use crate::dimensions::{all_values, tally, Dimension};
use crate::entry::{
    entry_views, DetailFields, EntryView, IdsView, SwarmActivityIds, SwarmActivityKind,
    SwarmActivityLedgerEntry, SWARM_ACTIVITY_LEDGER_SCHEMA,
};
use crate::hotspots::{is_top, tallied, top_hotspots, top_of};
use crate::jsonl::{entries_to_jsonl, jsonl_text};
use crate::redaction::{
    is_sensitive, redact_entry, redacted, redacted_pairs, redaction_of, text_pairs, REDACTED,
};
use crate::sketch::{
    SketchView, SummaryView, SwarmActivitySketch, SwarmActivitySummary, SwarmActivitySummaryConfig,
    DEFAULT_SWARM_ACTIVITY_HOTSPOT_CAPACITY, DEFAULT_SWARM_ACTIVITY_LATENCY_SAMPLE_CAPACITY,
};
use crate::sorted_map::{map_of, map_of_binds};

verus! {

/// The entry that an event becomes at the given place of a ledger.
pub open spec fn entry_at(
    place: int,
    timestamp_ms: u64,
    kind: SwarmActivityKind,
    ids: IdsView,
    summary: Seq<char>,
    details: Seq<(Seq<char>, Seq<char>)>,
) -> EntryView {
    EntryView {
        schema: SWARM_ACTIVITY_LEDGER_SCHEMA@,
        sequence: place as u64,
        timestamp_ms,
        kind,
        summary: redacted("summary"@, summary),
        ids,
        details: map_of(redacted_pairs(details)),
        redaction: redaction_of(summary, details),
    }
}

/// Whether the summary and all details of an entry are harmless or redacted, and the redaction
/// counts the fields that it names.
pub open spec fn is_redacted(entry: EntryView) -> bool {
    &&& is_sensitive("summary"@, entry.summary) ==> entry.summary == REDACTED@
    &&& forall|name: Seq<char>| #[trigger]
        entry.details.contains_key(name) && is_sensitive(name, entry.details[name])
            ==> entry.details[name] == REDACTED@
    &&& entry.redaction.redacted_count == entry.redaction.redacted_fields.len()
}

/// Whether an entry is as a ledger keeps it at the given place.
pub open spec fn is_kept_at(entry: EntryView, place: int) -> bool {
    &&& entry.is_current()
    &&& entry.sequence == place
    &&& entry.details.dom().finite()
    &&& is_redacted(entry)
}

/// Whether a list of entries is one that a ledger can hold: their sequences number them, all
/// have the current schema, and all are redacted.
pub open spec fn is_ledger(entries: Seq<EntryView>) -> bool {
    forall|i: int| 0 <= i < entries.len() ==> is_kept_at(#[trigger] entries[i], i)
}

/// The summary of entries: the most frequent of all values in each dimension, and what a sketch
/// of the entries gives of the rest.
pub open spec fn summarized(
    entries: Seq<EntryView>,
    config: SwarmActivitySummaryConfig,
) -> SummaryView {
    let cap = config.max_hotspots as nat;
    SummaryView {
        agent_hotspots: top_of(tallied(all_values(entries, Dimension::Agent)), cap),
        bead_hotspots: top_of(tallied(all_values(entries, Dimension::Bead)), cap),
        verification_hotspots: top_of(tallied(all_values(entries, Dimension::Verification)), cap),
        tool_hotspots: top_of(tallied(all_values(entries, Dimension::Tool)), cap),
        provider_hotspots: top_of(tallied(all_values(entries, Dimension::Provider)), cap),
        detail_hotspots: top_of(tallied(all_values(entries, Dimension::Detail)), cap),
        ..SketchView::empty(config).record_all(entries).summary()
    }
}

/// Whether a summary lists, in each dimension, the most frequent of all values of the entries,
/// each as often as it stands there.
pub open spec fn lists_most_frequent(
    summary: SummaryView,
    entries: Seq<EntryView>,
    capacity: nat,
) -> bool {
    &&& is_top(
        tallied(all_values(entries, Dimension::Agent)),
        capacity,
        summary.agent_hotspots,
    )
    &&& is_top(
        tallied(all_values(entries, Dimension::Bead)),
        capacity,
        summary.bead_hotspots,
    )
    &&& is_top(
        tallied(all_values(entries, Dimension::Verification)),
        capacity,
        summary.verification_hotspots,
    )
    &&& is_top(
        tallied(all_values(entries, Dimension::Tool)),
        capacity,
        summary.tool_hotspots,
    )
    &&& is_top(
        tallied(all_values(entries, Dimension::Provider)),
        capacity,
        summary.provider_hotspots,
    )
    &&& is_top(
        tallied(all_values(entries, Dimension::Detail)),
        capacity,
        summary.detail_hotspots,
    )
}

/// Append-only in-memory activity ledger.
#[derive(Debug)]
pub struct SwarmActivityLedger {
    entries: Vec<SwarmActivityLedgerEntry>,
    next_sequence: u64,
}

impl View for SwarmActivityLedger {
    type V = Seq<EntryView>;

    closed spec fn view(&self) -> Seq<EntryView> {
        entry_views(self.entries@)
    }
}

/// What is redacted of an event is redacted in its entry.
pub proof fn details_are_redacted(details: Seq<(Seq<char>, Seq<char>)>, name: Seq<char>)
    requires
        map_of(redacted_pairs(details)).contains_key(name),
        is_sensitive(name, map_of(redacted_pairs(details))[name]),
    ensures
        map_of(redacted_pairs(details))[name] == REDACTED@,
    decreases details.len(),
{
    let kept = redacted_pairs(details);
    if details.len() > 0 {
        let init = details.drop_last();
        assert(kept.drop_last() =~= redacted_pairs(init));
        if details.last().0 != name {
            details_are_redacted(init, name);
        }
    }
}

impl Default for SwarmActivityLedger {
    fn default() -> (r: Self)
        ensures
            r@ == Seq::<EntryView>::empty(),
    {
        SwarmActivityLedger::new()
    }
}

impl Clone for SwarmActivityLedger {
    fn clone(&self) -> (r: Self)
        ensures
            r@ == self@,
    {
        let mut entries: Vec<SwarmActivityLedgerEntry> = Vec::new();
        let mut i: usize = 0;
        while i < self.entries.len()
            invariant
                i <= self.entries@.len(),
                entries@.len() == i,
                forall|k: int| 0 <= k < i ==> (#[trigger] entries@[k])@ == self.entries@[k]@,
            decreases self.entries@.len() - i,
        {
            entries.push(self.entries[i].clone());
            i += 1;
        }
        proof {
            use_type_invariant(self);
            assert(entry_views(entries@) =~= entry_views(self.entries@));
        }
        SwarmActivityLedger { entries, next_sequence: self.next_sequence }
    }
}

impl SwarmActivityLedger {
    /// Whether the entries are those of a ledger and the next sequence is that of the next place.
    #[verifier::type_invariant]
    spec fn well_formed(self) -> bool {
        &&& self.next_sequence == self.entries@.len()
        &&& is_ledger(entry_views(self.entries@))
    }

    /// Create an empty ledger.
    #[must_use]
    pub fn new() -> (r: Self)
        ensures
            r@ == Seq::<EntryView>::empty(),
    {
        let r = SwarmActivityLedger { entries: Vec::new(), next_sequence: 0 };
        r
    }

    /// Append one activity event and return its assigned sequence.
    pub fn append(
        &mut self,
        timestamp_ms: u64,
        kind: SwarmActivityKind,
        ids: SwarmActivityIds,
        summary: &str,
        details: &[(&str, &str)],
    ) -> (r: u64)
        ensures
            r == old(self)@.len(),
            final(self)@ == old(self)@.push(
                entry_at(
                    old(self)@.len() as int,
                    timestamp_ms,
                    kind,
                    ids@,
                    summary@,
                    text_pairs(details@),
                ),
            ),
    {
        let mut taken = SwarmActivityLedger::new();
        std::mem::swap(self, &mut taken);
        proof {
            use_type_invariant(&taken);
        }
        let ghost before = taken@;
        let SwarmActivityLedger { mut entries, next_sequence: sequence } = taken;
        let (kept_summary, kept_details, redaction) = redact_entry(summary, details);
        let entry = SwarmActivityLedgerEntry {
            schema: SWARM_ACTIVITY_LEDGER_SCHEMA.to_owned(),
            sequence,
            timestamp_ms,
            kind,
            summary: kept_summary,
            ids,
            details: DetailFields::new(kept_details),
            redaction,
        };
        proof {
            let added = entry@;
            assert forall|name: Seq<char>| #[trigger]
                added.details.contains_key(name) && is_sensitive(name, added.details[name]) implies added.details[name]
                == REDACTED@ by {
                details_are_redacted(text_pairs(details@), name);
            }
            map_of_binds(redacted_pairs(text_pairs(details@)));
        }
        // The number of redacted fields fits a `usize`, so that its count is exact.
        let _fields: usize = entry.redaction.redacted_fields.len();
        entries.push(entry);
        // The number of entries fits a `usize`, so that the next sequence is exact.
        let _count: usize = entries.len();
        proof {
            assert(entry_views(entries@) =~= before.push(entry@));
        }
        *self = SwarmActivityLedger { entries, next_sequence: sequence.saturating_add(1) };
        sequence
    }

    /// All entries in append order.
    #[must_use]
    pub fn entries(&self) -> (r: &[SwarmActivityLedgerEntry])
        ensures
            entry_views(r@) == self@,
            is_ledger(self@),
    {
        proof {
            use_type_invariant(self);
        }
        self.entries.as_slice()
    }

    /// Number of entries.
    #[must_use]
    pub fn len(&self) -> (r: usize)
        ensures
            r == self@.len(),
    {
        self.entries.len()
    }

    /// True when no entries have been appended.
    #[must_use]
    pub fn is_empty(&self) -> (r: bool)
        ensures
            r == (self@.len() == 0),
    {
        self.entries.len() == 0
    }

    /// Serialize entries as JSONL.
    ///
    /// # Errors
    ///
    /// Returns a serde error if an entry cannot be serialized.
    pub fn to_jsonl(&self) -> (r: Result<String, serde_json::Error>)
        ensures
            r is Ok,
            r->Ok_0@ == jsonl_text(self@),
            is_ledger(self@),
    {
        entries_to_jsonl(self.entries())
    }

    /// Build a bounded summary from all retained raw entries.
    #[must_use]
    pub fn summarize(&self) -> (r: SwarmActivitySummary)
        ensures
            r@ == summarized(
                self@,
                (SwarmActivitySummaryConfig {
                    max_hotspots: DEFAULT_SWARM_ACTIVITY_HOTSPOT_CAPACITY,
                    max_latency_samples: DEFAULT_SWARM_ACTIVITY_LATENCY_SAMPLE_CAPACITY,
                }),
            ),
            lists_most_frequent(r@, self@, DEFAULT_SWARM_ACTIVITY_HOTSPOT_CAPACITY as nat),
    {
        self.summarize_with_config(SwarmActivitySummaryConfig::default())
    }

    /// Build a bounded summary from all retained raw entries with custom capacities.
    #[must_use]
    pub fn summarize_with_config(&self, config: SwarmActivitySummaryConfig) -> (r:
        SwarmActivitySummary)
        ensures
            r@ == summarized(self@, config),
            lists_most_frequent(r@, self@, config.max_hotspots as nat),
    {
        let entries = self.entries();
        let capacity: usize = config.max_hotspots;
        let mut sketch = SwarmActivitySketch::new(config);
        sketch.record_entries(entries);
        SwarmActivitySummary {
            agent_hotspots: top_hotspots(&tally(entries, Dimension::Agent), capacity),
            bead_hotspots: top_hotspots(&tally(entries, Dimension::Bead), capacity),
            verification_hotspots: top_hotspots(&tally(entries, Dimension::Verification), capacity),
            tool_hotspots: top_hotspots(&tally(entries, Dimension::Tool), capacity),
            provider_hotspots: top_hotspots(&tally(entries, Dimension::Provider), capacity),
            detail_hotspots: top_hotspots(&tally(entries, Dimension::Detail), capacity),
            ..sketch.snapshot()
        }
    }
}

} // verus!
