//! Mergeable bounded sketches of ledger entries, and their summaries.

use vstd::prelude::*;

use crate::counts::{add_count, add_counts, counted, summed};
use crate::dimensions::{
    is_detail_name, is_provider_name, is_tool_name, names_detail, names_provider, names_tool,
};
use crate::entry::{entry_views, EntryView, SwarmActivityKind, SwarmActivityLedgerEntry};
use crate::hotspots::{
    is_top, merge_count_map, record_hotspot, record_optional_hotspot, spots_merged, spotted,
    top_hotspots, top_of, HotspotView, SwarmActivityHotspot,
};
use crate::latency::{
    BoundedLatencySamples, LatencyParts, LatencyView, SwarmActivityLatencySummary,
};
use crate::ordered::views;
use crate::sorted_map::{ascending, SortedMap};
use crate::text::{
    chars_of, lower, lowered, read_digits, same_text, text_of, trim, trimmed, unsigned_number,
};

verus! {

/// Schema emitted by bounded swarm activity summaries.
pub const SWARM_ACTIVITY_SUMMARY_SCHEMA: &'static str = "pi.swarm.activity_summary.v1";

/// Default number of hot spots retained per summary dimension.
pub const DEFAULT_SWARM_ACTIVITY_HOTSPOT_CAPACITY: usize = 64;

/// Default number of latency samples retained by the bounded sketch.
pub const DEFAULT_SWARM_ACTIVITY_LATENCY_SAMPLE_CAPACITY: usize = 256;

/// Capacity controls for bounded swarm activity sketches.
#[derive(Debug, Clone, Copy, PartialEq, Eq)]
pub struct SwarmActivitySummaryConfig {
    /// Maximum retained items for each hot spot list.
    pub max_hotspots: usize,
    /// Maximum retained latency samples for approximate quantiles.
    pub max_latency_samples: usize,
}

impl Default for SwarmActivitySummaryConfig {
    fn default() -> (r: Self)
        ensures
            r.max_hotspots == DEFAULT_SWARM_ACTIVITY_HOTSPOT_CAPACITY,
            r.max_latency_samples == DEFAULT_SWARM_ACTIVITY_LATENCY_SAMPLE_CAPACITY,
            r.max_hotspots == 64,
            r.max_latency_samples == 256,
    {
        SwarmActivitySummaryConfig {
            max_hotspots: DEFAULT_SWARM_ACTIVITY_HOTSPOT_CAPACITY,
            max_latency_samples: DEFAULT_SWARM_ACTIVITY_LATENCY_SAMPLE_CAPACITY,
        }
    }
}

impl SwarmActivitySummaryConfig {
    /// Create capacity controls for a bounded summary sketch.
    #[must_use]
    pub fn new(max_hotspots: usize, max_latency_samples: usize) -> (r: Self)
        ensures
            r.max_hotspots == max_hotspots,
            r.max_latency_samples == max_latency_samples,
    {
        SwarmActivitySummaryConfig { max_hotspots, max_latency_samples }
    }
}

/// Derived bounded view of a raw swarm activity ledger.
#[derive(Debug, Clone, PartialEq, Eq)]
pub struct SwarmActivitySummary {
    /// Stable schema identifier.
    pub schema: String,
    /// Total events represented by this summary.
    pub event_count: u64,
    /// Events that had at least one redacted field.
    pub redacted_entry_count: u64,
    /// Total redacted fields represented by this summary.
    pub redacted_field_count: u64,
    /// Exact counts by activity kind.
    pub kind_counts: SortedMap<SwarmActivityKind, u64>,
    /// Most frequent agent identifiers.
    pub agent_hotspots: Vec<SwarmActivityHotspot>,
    /// Most frequent Beads issue identifiers.
    pub bead_hotspots: Vec<SwarmActivityHotspot>,
    /// Most frequent verification identifiers.
    pub verification_hotspots: Vec<SwarmActivityHotspot>,
    /// Most frequent tool names from redacted detail fields.
    pub tool_hotspots: Vec<SwarmActivityHotspot>,
    /// Most frequent provider/model names from redacted detail fields.
    pub provider_hotspots: Vec<SwarmActivityHotspot>,
    /// Most frequent selected detail key/value pairs.
    pub detail_hotspots: Vec<SwarmActivityHotspot>,
    /// Approximate latency quantiles when latency detail fields were present.
    pub latency_ms: Option<SwarmActivityLatencySummary>,
}

/// The model of a [`SwarmActivitySummary`].
#[verifier::ext_equal]
pub struct SummaryView {
    pub schema: Seq<char>,
    pub event_count: u64,
    pub redacted_entry_count: u64,
    pub redacted_field_count: u64,
    pub kind_counts: Map<SwarmActivityKind, u64>,
    pub agent_hotspots: Seq<HotspotView>,
    pub bead_hotspots: Seq<HotspotView>,
    pub verification_hotspots: Seq<HotspotView>,
    pub tool_hotspots: Seq<HotspotView>,
    pub provider_hotspots: Seq<HotspotView>,
    pub detail_hotspots: Seq<HotspotView>,
    pub latency_ms: Option<SwarmActivityLatencySummary>,
}

impl View for SwarmActivitySummary {
    type V = SummaryView;

    open spec fn view(&self) -> SummaryView {
        SummaryView {
            schema: self.schema@,
            event_count: self.event_count,
            redacted_entry_count: self.redacted_entry_count,
            redacted_field_count: self.redacted_field_count,
            kind_counts: self.kind_counts@,
            agent_hotspots: views(self.agent_hotspots@),
            bead_hotspots: views(self.bead_hotspots@),
            verification_hotspots: views(self.verification_hotspots@),
            tool_hotspots: views(self.tool_hotspots@),
            provider_hotspots: views(self.provider_hotspots@),
            detail_hotspots: views(self.detail_hotspots@),
            latency_ms: self.latency_ms,
        }
    }
}

/// Mergeable bounded sketch for swarm activity events.
#[derive(Debug, Clone, PartialEq, Eq)]
pub struct SwarmActivitySketch {
    schema: String,
    config: SwarmActivitySummaryConfig,
    event_count: u64,
    redacted_entry_count: u64,
    redacted_field_count: u64,
    kind_counts: SortedMap<SwarmActivityKind, u64>,
    agent_counts: SortedMap<String, u64>,
    bead_counts: SortedMap<String, u64>,
    verification_counts: SortedMap<String, u64>,
    tool_counts: SortedMap<String, u64>,
    provider_counts: SortedMap<String, u64>,
    detail_counts: SortedMap<String, u64>,
    latency_ms: BoundedLatencySamples,
}

/// The model of a [`SwarmActivitySketch`].
#[verifier::ext_equal]
pub struct SketchView {
    pub schema: Seq<char>,
    pub config: SwarmActivitySummaryConfig,
    pub event_count: u64,
    pub redacted_entry_count: u64,
    pub redacted_field_count: u64,
    pub kind_counts: Map<SwarmActivityKind, u64>,
    pub agent_counts: Map<Seq<char>, u64>,
    pub bead_counts: Map<Seq<char>, u64>,
    pub verification_counts: Map<Seq<char>, u64>,
    pub tool_counts: Map<Seq<char>, u64>,
    pub provider_counts: Map<Seq<char>, u64>,
    pub detail_counts: Map<Seq<char>, u64>,
    pub latency_ms: LatencyView,
}

impl View for SwarmActivitySketch {
    type V = SketchView;

    closed spec fn view(&self) -> SketchView {
        SketchView {
            schema: self.schema@,
            config: self.config,
            event_count: self.event_count,
            redacted_entry_count: self.redacted_entry_count,
            redacted_field_count: self.redacted_field_count,
            kind_counts: self.kind_counts@,
            agent_counts: self.agent_counts@,
            bead_counts: self.bead_counts@,
            verification_counts: self.verification_counts@,
            tool_counts: self.tool_counts@,
            provider_counts: self.provider_counts@,
            detail_counts: self.detail_counts@,
            latency_ms: self.latency_ms@,
        }
    }
}

/// What a [`SwarmActivitySketch`] holds, for keeping it from one run to the next.
#[derive(Debug, Clone, PartialEq, Eq)]
pub struct SketchParts {
    /// Stable schema identifier.
    pub schema: String,
    /// Capacity controls.
    pub config: SwarmActivitySummaryConfig,
    /// Events recorded.
    pub event_count: u64,
    /// Events that had at least one redacted field.
    pub redacted_entry_count: u64,
    /// Redacted fields of all events.
    pub redacted_field_count: u64,
    /// Counts by activity kind.
    pub kind_counts: SortedMap<SwarmActivityKind, u64>,
    /// Counts by agent.
    pub agent_counts: SortedMap<String, u64>,
    /// Counts by Beads issue.
    pub bead_counts: SortedMap<String, u64>,
    /// Counts by verification.
    pub verification_counts: SortedMap<String, u64>,
    /// Counts by tool.
    pub tool_counts: SortedMap<String, u64>,
    /// Counts by provider or model.
    pub provider_counts: SortedMap<String, u64>,
    /// Counts by selected detail.
    pub detail_counts: SortedMap<String, u64>,
    /// Latency samples.
    pub latency_ms: LatencyParts,
}

impl View for SketchParts {
    type V = SketchView;

    open spec fn view(&self) -> SketchView {
        SketchView {
            schema: self.schema@,
            config: self.config,
            event_count: self.event_count,
            redacted_entry_count: self.redacted_entry_count,
            redacted_field_count: self.redacted_field_count,
            kind_counts: self.kind_counts@,
            agent_counts: self.agent_counts@,
            bead_counts: self.bead_counts@,
            verification_counts: self.verification_counts@,
            tool_counts: self.tool_counts@,
            provider_counts: self.provider_counts@,
            detail_counts: self.detail_counts@,
            latency_ms: self.latency_ms@,
        }
    }
}

/// The text without the `ms` that it ends with, however often that stands there.
pub open spec fn without_unit(s: Seq<char>) -> Seq<char>
    decreases s.len(),
{
    if s.len() >= 2 && s[s.len() - 2] == 'm' && s[s.len() - 1] == 's' {
        without_unit(s.take(s.len() - 2))
    } else {
        s
    }
}

/// The text up to the first dot.
pub open spec fn before_dot(s: Seq<char>) -> Seq<char>
    decreases s.len(),
{
    if s.len() == 0 || s[0] == '.' {
        Seq::empty()
    } else {
        seq![s[0]] + before_dot(s.skip(1))
    }
}

/// The whole milliseconds of a latency, written with or without its unit and a fraction.
pub open spec fn latency_of(value: Seq<char>) -> Option<u64> {
    unsigned_number(before_dot(trimmed(without_unit(trimmed(value)))))
}

/// Whether a detail of this name, in small letters, is a latency.
pub open spec fn names_latency(name: Seq<char>) -> bool {
    name == "duration_ms"@ || name == "elapsed_ms"@ || name == "latency_ms"@
}

impl SketchView {
    /// A sketch of nothing.
    pub open spec fn empty(config: SwarmActivitySummaryConfig) -> SketchView {
        SketchView {
            schema: SWARM_ACTIVITY_SUMMARY_SCHEMA@,
            config,
            event_count: 0,
            redacted_entry_count: 0,
            redacted_field_count: 0,
            kind_counts: Map::empty(),
            agent_counts: Map::empty(),
            bead_counts: Map::empty(),
            verification_counts: Map::empty(),
            tool_counts: Map::empty(),
            provider_counts: Map::empty(),
            detail_counts: Map::empty(),
            latency_ms: LatencyView::empty(config.max_latency_samples),
        }
    }

    /// The number of keys retained for each dimension.
    pub open spec fn capacity(self) -> nat {
        self.config.max_hotspots as nat
    }

    /// The sketch with one more detail.
    pub open spec fn with_detail(self, key: Seq<char>, value: Seq<char>) -> SketchView {
        let name = lowered(key);
        SketchView {
            tool_counts: if names_tool(name) {
                spotted(self.tool_counts, value, self.capacity())
            } else {
                self.tool_counts
            },
            provider_counts: if names_provider(name) {
                spotted(self.provider_counts, value, self.capacity())
            } else {
                self.provider_counts
            },
            detail_counts: if names_detail(name) {
                spotted(self.detail_counts, name + "="@ + value, self.capacity())
            } else {
                self.detail_counts
            },
            latency_ms: if names_latency(name) {
                match latency_of(value) {
                    Some(sample_ms) => self.latency_ms.record(sample_ms),
                    None => self.latency_ms,
                }
            } else {
                self.latency_ms
            },
            ..self
        }
    }

    /// The sketch with some more details, one after the other.
    pub open spec fn with_details(self, details: Seq<(Seq<char>, Seq<char>)>) -> SketchView
        decreases details.len(),
    {
        if details.len() == 0 {
            self
        } else {
            self.with_details(details.drop_last()).with_detail(details.last().0, details.last().1)
        }
    }

    /// The counts of a dimension with one more for the value of an event, where it has one.
    pub open spec fn with_value(
        self,
        counts: Map<Seq<char>, u64>,
        value: Option<Seq<char>>,
    ) -> Map<Seq<char>, u64> {
        match value {
            Some(text) => spotted(counts, text, self.capacity()),
            None => counts,
        }
    }

    /// The sketch with one more event, its details left aside.
    pub open spec fn with_heading(self, entry: EntryView) -> SketchView {
        SketchView {
            event_count: self.event_count.saturating_add(1),
            redacted_entry_count: if entry.redaction.redacted_count > 0 {
                self.redacted_entry_count.saturating_add(1)
            } else {
                self.redacted_entry_count
            },
            redacted_field_count: self.redacted_field_count.saturating_add(
                entry.redaction.redacted_count as u64,
            ),
            kind_counts: counted(self.kind_counts, entry.kind, 1),
            agent_counts: self.with_value(self.agent_counts, entry.ids.agent_name),
            bead_counts: self.with_value(self.bead_counts, entry.ids.bead_id),
            verification_counts: self.with_value(
                self.verification_counts,
                entry.ids.verification_id,
            ),
            ..self
        }
    }

    /// The sketch with one more event, its details taken in ascending order of their names.
    pub open spec fn record(self, entry: EntryView) -> SketchView {
        self.with_heading(entry).with_details(ascending::<String, Seq<char>>(entry.details))
    }

    /// The sketch with some more events, one after the other.
    pub open spec fn record_all(self, entries: Seq<EntryView>) -> SketchView
        decreases entries.len(),
    {
        if entries.len() == 0 {
            self
        } else {
            self.record_all(entries.drop_last()).record(entries.last())
        }
    }

    /// This sketch and another together, within the capacities of this one.
    pub open spec fn merge(self, other: SketchView) -> SketchView {
        let cap = self.capacity();
        SketchView {
            schema: self.schema,
            config: self.config,
            event_count: self.event_count.saturating_add(other.event_count),
            redacted_entry_count: self.redacted_entry_count.saturating_add(
                other.redacted_entry_count,
            ),
            redacted_field_count: self.redacted_field_count.saturating_add(
                other.redacted_field_count,
            ),
            kind_counts: summed(self.kind_counts, other.kind_counts),
            agent_counts: spots_merged(self.agent_counts, other.agent_counts, cap),
            bead_counts: spots_merged(self.bead_counts, other.bead_counts, cap),
            verification_counts: spots_merged(
                self.verification_counts,
                other.verification_counts,
                cap,
            ),
            tool_counts: spots_merged(self.tool_counts, other.tool_counts, cap),
            provider_counts: spots_merged(self.provider_counts, other.provider_counts, cap),
            detail_counts: spots_merged(self.detail_counts, other.detail_counts, cap),
            latency_ms: self.latency_ms.merge(other.latency_ms),
        }
    }

    /// The summary of the sketch.
    pub open spec fn summary(self) -> SummaryView {
        let cap = self.capacity();
        SummaryView {
            schema: self.schema,
            event_count: self.event_count,
            redacted_entry_count: self.redacted_entry_count,
            redacted_field_count: self.redacted_field_count,
            kind_counts: self.kind_counts,
            agent_hotspots: top_of(self.agent_counts, cap),
            bead_hotspots: top_of(self.bead_counts, cap),
            verification_hotspots: top_of(self.verification_counts, cap),
            tool_hotspots: top_of(self.tool_counts, cap),
            provider_hotspots: top_of(self.provider_counts, cap),
            detail_hotspots: top_of(self.detail_counts, cap),
            latency_ms: self.latency_ms.summary(),
        }
    }
}

/// Whether a detail of this name is a latency.
fn is_latency_name(name: &str) -> (r: bool)
    ensures
        r == names_latency(name@),
{
    same_text(name, "duration_ms") || same_text(name, "elapsed_ms") || same_text(
        name,
        "latency_ms",
    )
}

/// The whole milliseconds of a latency.
pub fn parse_latency_ms(value: &str) -> (r: Option<u64>)
    ensures
        r == latency_of(value@),
{
    let outer = trim(value);
    let chars = chars_of(outer.as_str());
    let mut to: usize = chars.len();
    assert(chars@.take(to as int) =~= chars@);
    while to >= 2 && chars[to - 2] == 'm' && chars[to - 1] == 's'
        invariant
            to <= chars@.len(),
            without_unit(chars@) == without_unit(chars@.take(to as int)),
        decreases to,
    {
        assert(chars@.take(to as int).take(to - 2) =~= chars@.take(to - 2));
        to -= 2;
    }
    let unitless = text_of(&chars, 0, to);
    let inner = trim(unitless.as_str());
    let digits = chars_of(inner.as_str());
    let mut end: usize = 0;
    assert(digits@.skip(0) =~= digits@);
    while end < digits.len() && digits[end] != '.'
        invariant
            end <= digits@.len(),
            before_dot(digits@) == digits@.take(end as int) + before_dot(digits@.skip(end as int)),
        decreases digits@.len() - end,
    {
        proof {
            let rest = digits@.skip(end as int);
            assert(rest.skip(1) =~= digits@.skip(end + 1));
        }
        end += 1;
    }
    if end > 0 && digits[0] == '+' {
        assert(digits@.take(end as int).skip(1) =~= digits@.subrange(1, end as int));
        read_digits(&digits, 1, end)
    } else {
        read_digits(&digits, 0, end)
    }
}

impl Default for SwarmActivitySketch {
    fn default() -> (r: Self)
        ensures
            r@ == SketchView::empty(
                (SwarmActivitySummaryConfig {
                    max_hotspots: DEFAULT_SWARM_ACTIVITY_HOTSPOT_CAPACITY,
                    max_latency_samples: DEFAULT_SWARM_ACTIVITY_LATENCY_SAMPLE_CAPACITY,
                }),
            ),
    {
        SwarmActivitySketch::new(SwarmActivitySummaryConfig::default())
    }
}

impl SwarmActivitySketch {
    /// Create an empty bounded sketch with the supplied capacity controls.
    #[must_use]
    pub fn new(config: SwarmActivitySummaryConfig) -> (r: Self)
        ensures
            r@ == SketchView::empty(config),
    {
        SwarmActivitySketch {
            schema: SWARM_ACTIVITY_SUMMARY_SCHEMA.to_owned(),
            config,
            event_count: 0,
            redacted_entry_count: 0,
            redacted_field_count: 0,
            kind_counts: SortedMap::new(),
            agent_counts: SortedMap::new(),
            bead_counts: SortedMap::new(),
            verification_counts: SortedMap::new(),
            tool_counts: SortedMap::new(),
            provider_counts: SortedMap::new(),
            detail_counts: SortedMap::new(),
            latency_ms: BoundedLatencySamples::new(config.max_latency_samples),
        }
    }

    /// What the sketch holds.
    #[must_use]
    pub fn parts(&self) -> (r: SketchParts)
        ensures
            r@ == self@,
    {
        SketchParts {
            schema: self.schema.as_str().to_owned(),
            config: self.config,
            event_count: self.event_count,
            redacted_entry_count: self.redacted_entry_count,
            redacted_field_count: self.redacted_field_count,
            kind_counts: self.kind_counts.clone(),
            agent_counts: self.agent_counts.clone(),
            bead_counts: self.bead_counts.clone(),
            verification_counts: self.verification_counts.clone(),
            tool_counts: self.tool_counts.clone(),
            provider_counts: self.provider_counts.clone(),
            detail_counts: self.detail_counts.clone(),
            latency_ms: self.latency_ms.parts(),
        }
    }

    /// The sketch that holds the given parts.
    #[must_use]
    pub fn from_parts(parts: SketchParts) -> (r: Self)
        ensures
            r@ == parts@,
    {
        SwarmActivitySketch {
            schema: parts.schema,
            config: parts.config,
            event_count: parts.event_count,
            redacted_entry_count: parts.redacted_entry_count,
            redacted_field_count: parts.redacted_field_count,
            kind_counts: parts.kind_counts,
            agent_counts: parts.agent_counts,
            bead_counts: parts.bead_counts,
            verification_counts: parts.verification_counts,
            tool_counts: parts.tool_counts,
            provider_counts: parts.provider_counts,
            detail_counts: parts.detail_counts,
            latency_ms: BoundedLatencySamples::from_parts(parts.latency_ms),
        }
    }

    /// Record all entries from an existing ledger slice.
    pub fn record_entries(&mut self, entries: &[SwarmActivityLedgerEntry])
        ensures
            final(self)@ == old(self)@.record_all(entry_views(entries@)),
    {
        let ghost all = entry_views(entries@);
        let ghost start = self@;
        let mut i: usize = 0;
        while i < entries.len()
            invariant
                i <= entries@.len(),
                all == entry_views(entries@),
                self@ == start.record_all(all.take(i as int)),
            decreases entries@.len() - i,
        {
            self.record_entry(&entries[i]);
            assert(all.take(i + 1).drop_last() =~= all.take(i as int));
            i += 1;
        }
        assert(all.take(entries@.len() as int) =~= all);
    }

    /// Record one raw ledger entry into the bounded sketch.
    pub fn record_entry(&mut self, entry: &SwarmActivityLedgerEntry)
        ensures
            final(self)@ == old(self)@.record(entry@),
    {
        self.event_count = self.event_count.saturating_add(1);
        if entry.redaction.redacted_count > 0 {
            self.redacted_entry_count = self.redacted_entry_count.saturating_add(1);
        }
        self.redacted_field_count = self.redacted_field_count.saturating_add(
            entry.redaction.redacted_count as u64,
        );
        add_count(&mut self.kind_counts, entry.kind, 1);
        let capacity: usize = self.config.max_hotspots;
        record_optional_hotspot(&mut self.agent_counts, &entry.ids.agent_name, capacity);
        record_optional_hotspot(&mut self.bead_counts, &entry.ids.bead_id, capacity);
        record_optional_hotspot(
            &mut self.verification_counts,
            &entry.ids.verification_id,
            capacity,
        );
        let details = entry.details();
        let n: usize = details.len();
        let ghost pairs = details.pairs();
        let ghost counted_entry = self@;
        let mut i: usize = 0;
        while i < n
            invariant
                i <= n == pairs.len(),
                pairs == details.pairs(),
                self@ == counted_entry.with_details(pairs.take(i as int)),
            decreases n - i,
        {
            self.record_detail(details.key_at(i).as_str(), details.value_at(i).as_str());
            assert(pairs.take(i + 1).drop_last() =~= pairs.take(i as int));
            i += 1;
        }
        assert(pairs.take(n as int) =~= pairs);
    }

    /// Merge another sketch into this sketch, retaining this sketch's capacities.
    pub fn merge(&mut self, other: &Self)
        ensures
            final(self)@ == old(self)@.merge(other@),
    {
        self.event_count = self.event_count.saturating_add(other.event_count);
        self.redacted_entry_count = self.redacted_entry_count.saturating_add(
            other.redacted_entry_count,
        );
        self.redacted_field_count = self.redacted_field_count.saturating_add(
            other.redacted_field_count,
        );
        add_counts(&mut self.kind_counts, &other.kind_counts);
        let capacity: usize = self.config.max_hotspots;
        merge_count_map(&mut self.agent_counts, &other.agent_counts, capacity);
        merge_count_map(&mut self.bead_counts, &other.bead_counts, capacity);
        merge_count_map(&mut self.verification_counts, &other.verification_counts, capacity);
        merge_count_map(&mut self.tool_counts, &other.tool_counts, capacity);
        merge_count_map(&mut self.provider_counts, &other.provider_counts, capacity);
        merge_count_map(&mut self.detail_counts, &other.detail_counts, capacity);
        self.latency_ms.merge(&other.latency_ms);
    }

    /// Return a serializable bounded summary from this sketch.
    #[must_use]
    pub fn snapshot(&self) -> (r: SwarmActivitySummary)
        ensures
            r@ == self@.summary(),
            is_top(self@.agent_counts, self@.capacity(), r@.agent_hotspots),
            is_top(self@.bead_counts, self@.capacity(), r@.bead_hotspots),
            is_top(self@.verification_counts, self@.capacity(), r@.verification_hotspots),
            is_top(self@.tool_counts, self@.capacity(), r@.tool_hotspots),
            is_top(self@.provider_counts, self@.capacity(), r@.provider_hotspots),
            is_top(self@.detail_counts, self@.capacity(), r@.detail_hotspots),
    {
        let capacity: usize = self.config.max_hotspots;
        SwarmActivitySummary {
            schema: self.schema.as_str().to_owned(),
            event_count: self.event_count,
            redacted_entry_count: self.redacted_entry_count,
            redacted_field_count: self.redacted_field_count,
            kind_counts: self.kind_counts.clone(),
            agent_hotspots: top_hotspots(&self.agent_counts, capacity),
            bead_hotspots: top_hotspots(&self.bead_counts, capacity),
            verification_hotspots: top_hotspots(&self.verification_counts, capacity),
            tool_hotspots: top_hotspots(&self.tool_counts, capacity),
            provider_hotspots: top_hotspots(&self.provider_counts, capacity),
            detail_hotspots: top_hotspots(&self.detail_counts, capacity),
            latency_ms: self.latency_ms.summary(),
        }
    }

    /// Records one detail of an entry.
    fn record_detail(&mut self, key: &str, value: &str)
        ensures
            final(self)@ == old(self)@.with_detail(key@, value@),
    {
        let name = lower(key);
        let capacity: usize = self.config.max_hotspots;
        if is_tool_name(name.as_str()) {
            record_hotspot(&mut self.tool_counts, value, capacity);
        }
        if is_provider_name(name.as_str()) {
            record_hotspot(&mut self.provider_counts, value, capacity);
        }
        if is_detail_name(name.as_str()) {
            let mut detail = name.as_str().to_owned();
            detail.append("=");
            detail.append(value);
            record_hotspot(&mut self.detail_counts, detail.as_str(), capacity);
        }
        if is_latency_name(name.as_str()) {
            if let Some(sample_ms) = parse_latency_ms(value) {
                self.latency_ms.record(sample_ms);
            }
        }
    }
}

} // verus!
