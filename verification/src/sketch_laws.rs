//! What holds of every sketch.

use vstd::prelude::*;

use crate::counts::{
    count_of, count_within_weight, counted, counting_adds_weight, counts_add_up, counts_are_exact,
    parts_are_subsets, summed, summing_weighs_both, weight,
};
use crate::dimensions::{
    all_values, value_from_detail, value_from_ids, values_from_details, values_in, Dimension,
};
use crate::entry::{EntryView, SwarmActivityKind};
use crate::hotspot_laws::{
    listed_counts_are_exact, merging_fits, retained_key_is_short, spotted_all, spotting_fits,
    top_exists, values_within_capacity_are_tallied,
};
use crate::hotspots::{spot_keys, spots_merged, spotted, tallied, HOTSPOT_KEY_MAX_CHARS};
use crate::latency::LatencyView;
use crate::latency_laws::{
    merging_keeps_sketch, merging_nothing_changes_nothing, recording_keeps_sketch,
    samples_merged_within_capacity_are_exact, samples_within_capacity_are_exact,
};
use crate::sketch::{latency_of, names_latency, SketchView, SwarmActivitySummaryConfig};
use crate::sorted_map::ascending;
use crate::text::{lowered, trimmed};

verus! {

/// Whether the counts of a dimension keep within a capacity, their keys within the length of a
/// retained key.
pub open spec fn counts_fit(counts: Map<Seq<char>, u64>, capacity: nat) -> bool {
    &&& counts.dom().finite()
    &&& counts.len() <= capacity
    &&& forall|key: Seq<char>| #[trigger]
        counts.contains_key(key) ==> key.len() <= HOTSPOT_KEY_MAX_CHARS + 3
}

impl SketchView {
    /// Whether the sketch keeps within its capacities.
    pub open spec fn fits(self) -> bool {
        &&& counts_fit(self.agent_counts, self.capacity())
        &&& counts_fit(self.bead_counts, self.capacity())
        &&& counts_fit(self.verification_counts, self.capacity())
        &&& counts_fit(self.tool_counts, self.capacity())
        &&& counts_fit(self.provider_counts, self.capacity())
        &&& counts_fit(self.detail_counts, self.capacity())
        &&& self.latency_ms.fits()
        &&& self.latency_ms.capacity == self.config.max_latency_samples
    }
}

/// Counting a value keeps the counts of a dimension within their capacity.
proof fn spotting_keeps_fit(counts: Map<Seq<char>, u64>, value: Seq<char>, capacity: nat)
    requires
        counts_fit(counts, capacity),
    ensures
        counts_fit(spotted(counts, value, capacity), capacity),
{
    spotting_fits(counts, value, capacity);
    retained_key_is_short(trimmed(value));
}

/// Merging counts of a dimension keeps them within their capacity.
proof fn merging_keeps_fit(
    target: Map<Seq<char>, u64>,
    source: Map<Seq<char>, u64>,
    capacity: nat,
    source_capacity: nat,
)
    requires
        counts_fit(target, capacity),
        counts_fit(source, source_capacity),
    ensures
        counts_fit(spots_merged(target, source, capacity), capacity),
{
    merging_fits(target, source, capacity);
}

/// A sketch of nothing keeps within its capacities.
pub proof fn empty_sketch_fits(config: SwarmActivitySummaryConfig)
    ensures
        SketchView::empty(config).fits(),
        SketchView::empty(config).latency_ms.accounts(),
{
    reveal_with_fuel(weight, 2);
}

/// A sketch with one more detail keeps within its capacities.
proof fn detail_keeps_fit(sketch: SketchView, key: Seq<char>, value: Seq<char>)
    requires
        sketch.fits(),
    ensures
        sketch.with_detail(key, value).fits(),
        sketch.latency_ms.accounts() ==> sketch.with_detail(key, value).latency_ms.accounts(),
{
    let cap = sketch.capacity();
    let name = lowered(key);
    spotting_keeps_fit(sketch.tool_counts, value, cap);
    spotting_keeps_fit(sketch.provider_counts, value, cap);
    spotting_keeps_fit(sketch.detail_counts, name + "="@ + value, cap);
    if let Some(sample_ms) = latency_of(value) {
        recording_keeps_sketch(sketch.latency_ms, sample_ms);
    }
}

/// A sketch with some more details keeps within its capacities, and the details reach none of
/// its other fields.
pub proof fn details_keep_fit(sketch: SketchView, details: Seq<(Seq<char>, Seq<char>)>)
    ensures
        sketch.fits() ==> sketch.with_details(details).fits(),
        sketch.fits() && sketch.latency_ms.accounts() ==> sketch.with_details(
            details,
        ).latency_ms.accounts(),
        (SketchView {
            tool_counts: sketch.tool_counts,
            provider_counts: sketch.provider_counts,
            detail_counts: sketch.detail_counts,
            latency_ms: sketch.latency_ms,
            ..sketch.with_details(details)
        }) == sketch,
    decreases details.len(),
{
    if details.len() > 0 {
        details_keep_fit(sketch, details.drop_last());
        if sketch.fits() {
            detail_keeps_fit(
                sketch.with_details(details.drop_last()),
                details.last().0,
                details.last().1,
            );
        }
    }
}

/// A sketch that records an entry keeps within its capacities.
pub proof fn recording_keeps_capacities(sketch: SketchView, entry: EntryView)
    requires
        sketch.fits(),
    ensures
        sketch.record(entry).fits(),
        sketch.record(entry).config == sketch.config,
        sketch.latency_ms.accounts() ==> sketch.record(entry).latency_ms.accounts(),
{
    let cap = sketch.capacity();
    if let Some(text) = entry.ids.agent_name {
        spotting_keeps_fit(sketch.agent_counts, text, cap);
    }
    if let Some(text) = entry.ids.bead_id {
        spotting_keeps_fit(sketch.bead_counts, text, cap);
    }
    if let Some(text) = entry.ids.verification_id {
        spotting_keeps_fit(sketch.verification_counts, text, cap);
    }
    details_keep_fit(sketch.with_heading(entry), ascending::<String, Seq<char>>(entry.details));
}

/// A sketch that records any number of entries keeps within its capacities.
pub proof fn recording_all_keeps_capacities(sketch: SketchView, entries: Seq<EntryView>)
    requires
        sketch.fits(),
    ensures
        sketch.record_all(entries).fits(),
        sketch.record_all(entries).config == sketch.config,
        sketch.latency_ms.accounts() ==> sketch.record_all(entries).latency_ms.accounts(),
    decreases entries.len(),
{
    if entries.len() > 0 {
        recording_all_keeps_capacities(sketch, entries.drop_last());
        recording_keeps_capacities(sketch.record_all(entries.drop_last()), entries.last());
    }
}

/// A sketch into which another is merged keeps its own capacities, and keeps within them
/// whatever the capacities of the other.
pub proof fn merging_keeps_capacities(a: SketchView, b: SketchView)
    requires
        a.fits(),
        b.fits(),
    ensures
        a.merge(b).fits(),
        a.merge(b).config == a.config,
{
    let cap = a.capacity();
    merging_keeps_fit(a.agent_counts, b.agent_counts, cap, b.capacity());
    merging_keeps_fit(a.bead_counts, b.bead_counts, cap, b.capacity());
    merging_keeps_fit(a.verification_counts, b.verification_counts, cap, b.capacity());
    merging_keeps_fit(a.tool_counts, b.tool_counts, cap, b.capacity());
    merging_keeps_fit(a.provider_counts, b.provider_counts, cap, b.capacity());
    merging_keeps_fit(a.detail_counts, b.detail_counts, cap, b.capacity());
    merging_keeps_sketch(a.latency_ms, b.latency_ms);
}

/// Merging the counts of nothing changes nothing.
proof fn merging_no_counts(counts: Map<Seq<char>, u64>, capacity: nat)
    requires
        counts_fit(counts, capacity),
    ensures
        spots_merged(counts, Map::empty(), capacity) == counts,
        spots_merged(Map::empty(), counts, capacity) == counts,
{
    let none = Map::<Seq<char>, u64>::empty();
    assert(summed(counts, none) =~= counts);
    assert(summed(none, counts) =~= counts);
    merging_fits(counts, none, capacity);
    merging_fits(none, counts, capacity);
}

/// A sketch of nothing is neutral: merged into another, whatever its capacities, it changes
/// nothing, and another of the same capacities and schema merged into it is what comes out.
pub proof fn merging_nothing_is_neutral(sketch: SketchView, config: SwarmActivitySummaryConfig)
    requires
        sketch.fits(),
    ensures
        sketch.merge(SketchView::empty(config)) == sketch,
        sketch.schema == SketchView::empty(config).schema ==> SketchView::empty(
            sketch.config,
        ).merge(sketch) == sketch,
{
    let cap = sketch.capacity();
    let own = SketchView::empty(sketch.config);
    merging_no_counts(sketch.agent_counts, cap);
    merging_no_counts(sketch.bead_counts, cap);
    merging_no_counts(sketch.verification_counts, cap);
    merging_no_counts(sketch.tool_counts, cap);
    merging_no_counts(sketch.provider_counts, cap);
    merging_no_counts(sketch.detail_counts, cap);
    merging_nothing_changes_nothing(sketch.latency_ms, config.max_latency_samples);
    merging_nothing_changes_nothing(sketch.latency_ms, sketch.config.max_latency_samples);
    empty_sketch_fits(sketch.config);
    crate::latency_laws::merging_commutes(own.latency_ms, sketch.latency_ms);
    assert(summed(sketch.kind_counts, Map::empty()) =~= sketch.kind_counts);
    assert(summed(Map::empty(), sketch.kind_counts) =~= sketch.kind_counts);
    assert(sketch.merge(SketchView::empty(config)) =~= sketch);
    if sketch.schema == own.schema {
        assert(own.merge(sketch) =~= sketch);
    }
}

/// It makes no difference which of two sketches of the same capacities and schema is merged into
/// the other.
pub proof fn merging_commutes(a: SketchView, b: SketchView)
    requires
        a.fits(),
        b.fits(),
        a.config == b.config,
        a.schema == b.schema,
    ensures
        a.merge(b) == b.merge(a),
{
    assert(summed(a.kind_counts, b.kind_counts) =~= summed(b.kind_counts, a.kind_counts));
    assert(summed(a.agent_counts, b.agent_counts) =~= summed(b.agent_counts, a.agent_counts));
    assert(summed(a.bead_counts, b.bead_counts) =~= summed(b.bead_counts, a.bead_counts));
    assert(summed(a.verification_counts, b.verification_counts) =~= summed(
        b.verification_counts,
        a.verification_counts,
    ));
    assert(summed(a.tool_counts, b.tool_counts) =~= summed(b.tool_counts, a.tool_counts));
    assert(summed(a.provider_counts, b.provider_counts) =~= summed(
        b.provider_counts,
        a.provider_counts,
    ));
    assert(summed(a.detail_counts, b.detail_counts) =~= summed(b.detail_counts, a.detail_counts));
    crate::latency_laws::merging_commutes(a.latency_ms, b.latency_ms);
    assert(a.merge(b) =~= b.merge(a));
}

/// Whether every key of a dimension is a text that came at least once.
pub open spec fn keys_came(counts: Map<Seq<char>, u64>) -> bool {
    forall|key: Seq<char>| #[trigger]
        counts.contains_key(key) ==> key.len() > 0 && counts[key] > 0
}

impl SketchView {
    /// Whether the counters agree: the counts of all kinds add up to that of the events, up to
    /// the greatest count; no more entries were redacted than there are events, nor than fields
    /// were redacted; and every retained key is a text that came at least once.
    pub open spec fn agrees(self) -> bool {
        &&& self.kind_counts.dom().finite()
        &&& self.event_count == clamped(weight(self.kind_counts))
        &&& self.redacted_entry_count <= self.event_count
        &&& self.redacted_entry_count <= self.redacted_field_count
        &&& keys_came(self.agent_counts)
        &&& keys_came(self.bead_counts)
        &&& keys_came(self.verification_counts)
        &&& keys_came(self.tool_counts)
        &&& keys_came(self.provider_counts)
        &&& keys_came(self.detail_counts)
    }
}

/// The counters of a sketch of nothing agree.
pub proof fn empty_sketch_agrees(config: SwarmActivitySummaryConfig)
    ensures
        SketchView::empty(config).agrees(),
{
    reveal_with_fuel(weight, 2);
}

/// Details leave the counters of a sketch in agreement.
proof fn details_keep_agreement(sketch: SketchView, details: Seq<(Seq<char>, Seq<char>)>)
    requires
        sketch.agrees(),
    ensures
        sketch.with_details(details).agrees(),
    decreases details.len(),
{
    if details.len() > 0 {
        details_keep_agreement(sketch, details.drop_last());
    }
}

/// The counters of a sketch that records an entry go on agreeing.
pub proof fn recording_keeps_agreement(sketch: SketchView, entry: EntryView)
    requires
        sketch.agrees(),
    ensures
        sketch.record(entry).agrees(),
{
    let after = counted(sketch.kind_counts, entry.kind, 1);
    count_within_weight(sketch.kind_counts, entry.kind);
    if count_of(sketch.kind_counts, entry.kind) < u64::MAX {
        counting_adds_weight(sketch.kind_counts, entry.kind, 1);
    } else {
        count_within_weight(after, entry.kind);
    }
    details_keep_agreement(
        sketch.with_heading(entry),
        ascending::<String, Seq<char>>(entry.details),
    );
}

/// The counters of a sketch of any entries agree.
pub proof fn recorded_sketch_agrees(config: SwarmActivitySummaryConfig, entries: Seq<EntryView>)
    ensures
        SketchView::empty(config).record_all(entries).agrees(),
    decreases entries.len(),
{
    if entries.len() == 0 {
        empty_sketch_agrees(config);
    } else {
        recorded_sketch_agrees(config, entries.drop_last());
        recording_keeps_agreement(
            SketchView::empty(config).record_all(entries.drop_last()),
            entries.last(),
        );
    }
}

/// The counters of a sketch into which another is merged go on agreeing.
pub proof fn merging_keeps_agreement(a: SketchView, b: SketchView)
    requires
        a.agrees(),
        b.agrees(),
    ensures
        a.merge(b).agrees(),
{
    summing_weighs_both(a.kind_counts, b.kind_counts);
}

/// A summary lists no more hot spots in a dimension, and retains no more latency samples, than
/// the sketch has room for.
pub proof fn summary_is_bounded(sketch: SketchView)
    requires
        sketch.fits(),
    ensures
        sketch.summary().agent_hotspots.len() <= sketch.config.max_hotspots,
        sketch.summary().bead_hotspots.len() <= sketch.config.max_hotspots,
        sketch.summary().verification_hotspots.len() <= sketch.config.max_hotspots,
        sketch.summary().tool_hotspots.len() <= sketch.config.max_hotspots,
        sketch.summary().provider_hotspots.len() <= sketch.config.max_hotspots,
        sketch.summary().detail_hotspots.len() <= sketch.config.max_hotspots,
        sketch.summary().latency_ms matches Some(l) ==> l.retained_samples
            <= sketch.config.max_latency_samples,
{
    let cap = sketch.capacity();
    top_exists(sketch.agent_counts, cap);
    top_exists(sketch.bead_counts, cap);
    top_exists(sketch.verification_counts, cap);
    top_exists(sketch.tool_counts, cap);
    top_exists(sketch.provider_counts, cap);
    top_exists(sketch.detail_counts, cap);
}

/// The number of entries of a kind.
pub open spec fn entries_of(entries: Seq<EntryView>, kind: SwarmActivityKind) -> nat
    decreases entries.len(),
{
    if entries.len() == 0 {
        0
    } else {
        entries_of(entries.drop_last(), kind) + if entries.last().kind == kind {
            1nat
        } else {
            0nat
        }
    }
}

/// The number of entries in which something was redacted.
pub open spec fn redacted_entries(entries: Seq<EntryView>) -> nat
    decreases entries.len(),
{
    if entries.len() == 0 {
        0
    } else {
        redacted_entries(entries.drop_last()) + if entries.last().redaction.redacted_count > 0 {
            1nat
        } else {
            0nat
        }
    }
}

/// The number of redacted fields in all entries.
pub open spec fn redacted_fields(entries: Seq<EntryView>) -> nat
    decreases entries.len(),
{
    if entries.len() == 0 {
        0
    } else {
        redacted_fields(entries.drop_last()) + entries.last().redaction.redacted_count as nat
    }
}

/// A number, or the greatest count where it exceeds that.
pub open spec fn clamped(n: nat) -> u64 {
    if n <= u64::MAX {
        n as u64
    } else {
        u64::MAX
    }
}

/// Whatever its capacities, a sketch counts its entries, their kinds and their redactions
/// exactly, up to the greatest count.
pub proof fn recording_counts_exactly(sketch: SketchView, entries: Seq<EntryView>)
    ensures
        sketch.record_all(entries).event_count == clamped(sketch.event_count as nat + entries.len()),
        sketch.record_all(entries).redacted_entry_count == clamped(
            sketch.redacted_entry_count as nat + redacted_entries(entries),
        ),
        sketch.record_all(entries).redacted_field_count == clamped(
            sketch.redacted_field_count as nat + redacted_fields(entries),
        ),
        forall|kind: SwarmActivityKind| #[trigger]
            count_of(sketch.record_all(entries).kind_counts, kind) == clamped(
                count_of(sketch.kind_counts, kind) as nat + entries_of(entries, kind),
            ),
        forall|kind: SwarmActivityKind| #[trigger]
            sketch.record_all(entries).kind_counts.contains_key(kind)
                == (sketch.kind_counts.contains_key(kind) || entries_of(entries, kind) > 0),
    decreases entries.len(),
{
    if entries.len() > 0 {
        let before = sketch.record_all(entries.drop_last());
        let entry = entries.last();
        recording_counts_exactly(sketch, entries.drop_last());
        details_keep_fit(before.with_heading(entry), ascending::<String, Seq<char>>(entry.details));
        assert forall|kind: SwarmActivityKind| #[trigger]
            count_of(sketch.record_all(entries).kind_counts, kind) == clamped(
                count_of(sketch.kind_counts, kind) as nat + entries_of(entries, kind),
            ) by {
            assert(count_of(before.kind_counts, kind) == clamped(
                count_of(sketch.kind_counts, kind) as nat + entries_of(entries.drop_last(), kind),
            ));
        }
    }
}

/// Whether two sketches agree in everything that no capacity limits.
pub open spec fn alike(a: SketchView, b: SketchView) -> bool {
    &&& a.event_count == b.event_count
    &&& a.redacted_entry_count == b.redacted_entry_count
    &&& a.redacted_field_count == b.redacted_field_count
    &&& a.kind_counts == b.kind_counts
    &&& a.latency_ms.sample_count == b.latency_ms.sample_count
    &&& a.latency_ms.min_ms == b.latency_ms.min_ms
    &&& a.latency_ms.max_ms == b.latency_ms.max_ms
}

/// Details recorded before and after merging agree in what no capacity limits.
proof fn details_stay_alike(
    a: SketchView,
    target: SketchView,
    source: SketchView,
    details: Seq<(Seq<char>, Seq<char>)>,
)
    requires
        alike(a, target.merge(source)),
    ensures
        alike(a.with_details(details), target.merge(source.with_details(details))),
    decreases details.len(),
{
    if details.len() > 0 {
        details_stay_alike(a, target, source, details.drop_last());
    }
}

/// Merging the sketch of some entries into another sketch is, in everything that no capacity
/// limits, the same as recording those entries into it.
pub proof fn merging_matches_recording(
    target: SketchView,
    config: SwarmActivitySummaryConfig,
    entries: Seq<EntryView>,
)
    ensures
        alike(
            target.record_all(entries),
            target.merge(SketchView::empty(config).record_all(entries)),
        ),
    decreases entries.len(),
{
    let source = SketchView::empty(config);
    if entries.len() == 0 {
        assert(summed(target.kind_counts, Map::empty()) =~= target.kind_counts);
    } else {
        let before = target.record_all(entries.drop_last());
        let apart = source.record_all(entries.drop_last());
        let entry = entries.last();
        merging_matches_recording(target, config, entries.drop_last());
        assert(counted(summed(target.kind_counts, apart.kind_counts), entry.kind, 1) =~= summed(
            target.kind_counts,
            counted(apart.kind_counts, entry.kind, 1),
        ));
        details_stay_alike(
            before.with_heading(entry),
            target,
            apart.with_heading(entry),
            ascending::<String, Seq<char>>(entry.details),
        );
    }
}

/// Recording one list of entries and then another is recording both.
pub proof fn recording_in_parts(sketch: SketchView, first: Seq<EntryView>, second: Seq<EntryView>)
    ensures
        sketch.record_all(first).record_all(second) == sketch.record_all(first + second),
    decreases second.len(),
{
    if second.len() > 0 {
        recording_in_parts(sketch, first, second.drop_last());
        assert((first + second).drop_last() =~= first + second.drop_last());
    }
}

impl SketchView {
    /// The counts of a dimension.
    pub open spec fn counts_in(self, dimension: Dimension) -> Map<Seq<char>, u64> {
        match dimension {
            Dimension::Agent => self.agent_counts,
            Dimension::Bead => self.bead_counts,
            Dimension::Verification => self.verification_counts,
            Dimension::Tool => self.tool_counts,
            Dimension::Provider => self.provider_counts,
            Dimension::Detail => self.detail_counts,
        }
    }
}

/// The latency that a detail gives, where it gives one.
pub open spec fn latency_from_detail(key: Seq<char>, value: Seq<char>) -> Option<u64> {
    if names_latency(lowered(key)) {
        latency_of(value)
    } else {
        None
    }
}

/// The latencies that details give, in their order.
pub open spec fn latencies_from_details(details: Seq<(Seq<char>, Seq<char>)>) -> Seq<u64>
    decreases details.len(),
{
    if details.len() == 0 {
        Seq::empty()
    } else {
        let others = latencies_from_details(details.drop_last());
        match latency_from_detail(details.last().0, details.last().1) {
            Some(sample_ms) => others.push(sample_ms),
            None => others,
        }
    }
}

/// The latencies of entries, in their order.
pub open spec fn all_latencies(entries: Seq<EntryView>) -> Seq<u64>
    decreases entries.len(),
{
    if entries.len() == 0 {
        Seq::empty()
    } else {
        all_latencies(entries.drop_last()) + latencies_from_details(
            ascending::<String, Seq<char>>(entries.last().details),
        )
    }
}

/// Counting a value after others is counting all of them.
proof fn spotting_one_more(values: Seq<Seq<char>>, value: Seq<char>, capacity: nat)
    ensures
        spotted_all(values.push(value), capacity) == spotted(
            spotted_all(values, capacity),
            value,
            capacity,
        ),
{
    assert(values.push(value).drop_last() =~= values);
}

/// Recording a sample after others is recording all of them.
proof fn recording_one_more(latency: LatencyView, samples: Seq<u64>, sample_ms: u64)
    ensures
        latency.record_all(samples.push(sample_ms)) == latency.record_all(samples).record(sample_ms),
{
    assert(samples.push(sample_ms).drop_last() =~= samples);
}

/// Details are counted after the values of a dimension that came ahead of them.
proof fn details_are_counted_apart(
    sketch: SketchView,
    details: Seq<(Seq<char>, Seq<char>)>,
    dimension: Dimension,
    earlier: Seq<Seq<char>>,
)
    requires
        sketch.counts_in(dimension) == spotted_all(earlier, sketch.capacity()),
    ensures
        sketch.with_details(details).config == sketch.config,
        sketch.with_details(details).counts_in(dimension) == spotted_all(
            earlier + values_from_details(details, dimension),
            sketch.capacity(),
        ),
    decreases details.len(),
{
    if details.len() == 0 {
        assert(earlier + values_from_details(details, dimension) =~= earlier);
    } else {
        let init = details.drop_last();
        let (key, text) = details.last();
        let others = values_from_details(init, dimension);
        details_are_counted_apart(sketch, init, dimension, earlier);
        if let Some(value) = value_from_detail(key, text, dimension) {
            spotting_one_more(earlier + others, value, sketch.capacity());
            assert((earlier + others).push(value) =~= earlier + others.push(value));
        }
    }
}

/// The latencies of details are recorded after those that came ahead of them.
pub proof fn latencies_are_recorded_apart(
    sketch: SketchView,
    details: Seq<(Seq<char>, Seq<char>)>,
    start: LatencyView,
    earlier: Seq<u64>,
)
    requires
        sketch.latency_ms == start.record_all(earlier),
    ensures
        sketch.with_details(details).latency_ms == start.record_all(
            earlier + latencies_from_details(details),
        ),
    decreases details.len(),
{
    if details.len() == 0 {
        assert(earlier + latencies_from_details(details) =~= earlier);
    } else {
        let init = details.drop_last();
        let (key, value) = details.last();
        let others = latencies_from_details(init);
        latencies_are_recorded_apart(sketch, init, start, earlier);
        if let Some(sample_ms) = latency_from_detail(key, value) {
            recording_one_more(start, earlier + others, sample_ms);
            assert((earlier + others).push(sample_ms) =~= earlier + others.push(sample_ms));
        }
    }
}

/// The counts of a dimension in a sketch come from the values of its entries in that dimension,
/// and its latency samples from their latencies, and both from nothing else.
pub proof fn dimensions_are_counted_apart(
    config: SwarmActivitySummaryConfig,
    entries: Seq<EntryView>,
    dimension: Dimension,
)
    ensures
        ({
            let sketch = SketchView::empty(config).record_all(entries);
            &&& sketch.config == config
            &&& sketch.schema == SketchView::empty(config).schema
            &&& sketch.counts_in(dimension) == spotted_all(
                all_values(entries, dimension),
                config.max_hotspots as nat,
            )
            &&& sketch.latency_ms == LatencyView::empty(config.max_latency_samples).record_all(
                all_latencies(entries),
            )
        }),
    decreases entries.len(),
{
    if entries.len() > 0 {
        let init = entries.drop_last();
        let entry = entries.last();
        let before = SketchView::empty(config).record_all(init);
        let details = ascending::<String, Seq<char>>(entry.details);
        let earlier = all_values(init, dimension);
        dimensions_are_counted_apart(config, init, dimension);
        details_keep_fit(before.with_heading(entry), details);
        match value_from_ids(entry, dimension) {
            Some(value) => {
                spotting_one_more(earlier, value, before.capacity());
                details_are_counted_apart(
                    before.with_heading(entry),
                    details,
                    dimension,
                    earlier.push(value),
                );
                assert(earlier.push(value) + values_from_details(details, dimension) =~= earlier
                    + values_in(entry, dimension));
            },
            None => {
                details_are_counted_apart(before.with_heading(entry), details, dimension, earlier);
            },
        }
        latencies_are_recorded_apart(
            before.with_heading(entry),
            details,
            LatencyView::empty(config.max_latency_samples),
            all_latencies(init),
        );
    }
}

/// However many keys a sketch dropped, it counts each key that it retains in a dimension as often
/// as its entries have it there.
pub proof fn retained_counts_are_exact(
    config: SwarmActivitySummaryConfig,
    entries: Seq<EntryView>,
    dimension: Dimension,
    key: Seq<char>,
)
    requires
        all_values(entries, dimension).len() <= u64::MAX,
        SketchView::empty(config).record_all(entries).counts_in(dimension).contains_key(key),
    ensures
        SketchView::empty(config).record_all(entries).counts_in(dimension)[key] == spot_keys(
            all_values(entries, dimension),
        ).to_multiset().count(key),
{
    dimensions_are_counted_apart(config, entries, dimension);
    listed_counts_are_exact(
        all_values(entries, dimension),
        config.max_hotspots as nat,
        key,
    );
}

/// Of two lists of entries, the values and latencies are those of the first and then those of
/// the second.
pub proof fn values_of_both(first: Seq<EntryView>, second: Seq<EntryView>, dimension: Dimension)
    ensures
        all_values(first + second, dimension) == all_values(first, dimension) + all_values(
            second,
            dimension,
        ),
        all_latencies(first + second) == all_latencies(first) + all_latencies(second),
    decreases second.len(),
{
    if second.len() == 0 {
        assert(first + second =~= first);
        assert(all_values(first, dimension) + all_values(second, dimension) =~= all_values(
            first,
            dimension,
        ));
        assert(all_latencies(first) + all_latencies(second) =~= all_latencies(first));
    } else {
        let init = second.drop_last();
        let details = ascending::<String, Seq<char>>(second.last().details);
        values_of_both(first, init, dimension);
        assert((first + second).drop_last() =~= first + init);
        assert(all_values(first + init, dimension) + values_in(second.last(), dimension)
            =~= all_values(first, dimension) + all_values(second, dimension));
        assert(all_latencies(first + init) + latencies_from_details(details) =~= all_latencies(
            first,
        ) + all_latencies(second));
    }
}

/// The number of different keys that entries have in a dimension.
pub open spec fn keys_in(entries: Seq<EntryView>, dimension: Dimension) -> nat {
    spot_keys(all_values(entries, dimension)).to_set().len()
}

/// Whether there is room for all different keys of entries, in each dimension, and for all their
/// different latencies.
pub open spec fn has_room_for(config: SwarmActivitySummaryConfig, entries: Seq<EntryView>) -> bool {
    &&& forall|dimension: Dimension| #[trigger] keys_in(entries, dimension) <= config.max_hotspots
    &&& all_latencies(entries).to_set().len() <= config.max_latency_samples
}

/// A dimension of two sketches that have room for all keys of both, one merged into the other.
proof fn dimension_merges_without_loss(
    config: SwarmActivitySummaryConfig,
    first: Seq<EntryView>,
    other_config: SwarmActivitySummaryConfig,
    second: Seq<EntryView>,
    dimension: Dimension,
)
    requires
        has_room_for(config, first + second),
        has_room_for(other_config, first + second),
    ensures
        ({
            let a = SketchView::empty(config).record_all(first);
            let b = SketchView::empty(other_config).record_all(second);
            let all = SketchView::empty(config).record_all(first + second);
            &&& a.merge(b).counts_in(dimension) == all.counts_in(dimension)
            &&& all.counts_in(dimension) == tallied(all_values(first + second, dimension))
        }),
{
    let (cap, other_cap) = (config.max_hotspots as nat, other_config.max_hotspots as nat);
    let all = all_values(first + second, dimension);
    let (xs, ys) = (all_values(first, dimension), all_values(second, dimension));
    dimensions_are_counted_apart(config, first, dimension);
    dimensions_are_counted_apart(other_config, second, dimension);
    dimensions_are_counted_apart(config, first + second, dimension);
    values_of_both(first, second, dimension);
    keys_of_both(xs, ys);
    assert(keys_in(first + second, dimension) <= cap && keys_in(first + second, dimension)
        <= other_cap);
    let keys = spot_keys(all);
    keys.lemma_cardinality_of_set();
    parts_are_subsets(spot_keys(xs), spot_keys(ys));
    vstd::set_lib::lemma_len_subset(spot_keys(xs).to_set(), keys.to_set());
    vstd::set_lib::lemma_len_subset(spot_keys(ys).to_set(), keys.to_set());
    values_within_capacity_are_tallied(all, cap);
    values_within_capacity_are_tallied(xs, cap);
    values_within_capacity_are_tallied(ys, other_cap);
    counts_add_up(spot_keys(xs), spot_keys(ys));
    counts_are_exact(spot_keys(xs), Seq::empty());
    counts_are_exact(spot_keys(ys), Seq::empty());
    counts_are_exact(keys, Seq::empty());
    merging_fits(tallied(xs), tallied(ys), cap);
}

/// The keys of two lists of values are those of the first and then those of the second.
pub proof fn keys_of_both(first: Seq<Seq<char>>, second: Seq<Seq<char>>)
    ensures
        spot_keys(first + second) == spot_keys(first) + spot_keys(second),
    decreases second.len(),
{
    if second.len() == 0 {
        assert(first + second =~= first);
        assert(spot_keys(first) + spot_keys(second) =~= spot_keys(first));
    } else {
        keys_of_both(first, second.drop_last());
        assert((first + second).drop_last() =~= first + second.drop_last());
        assert(spot_keys(first + second) =~= spot_keys(first) + spot_keys(second));
    }
}

/// Merging loses nothing while there is room: two sketches that have room for all different keys
/// and latencies of both make, one merged into the other, the sketch of all their entries.
pub proof fn merging_within_capacity_loses_nothing(
    config: SwarmActivitySummaryConfig,
    first: Seq<EntryView>,
    other_config: SwarmActivitySummaryConfig,
    second: Seq<EntryView>,
)
    requires
        has_room_for(config, first + second),
        has_room_for(other_config, first + second),
    ensures
        SketchView::empty(config).record_all(first).merge(
            SketchView::empty(other_config).record_all(second),
        ) == SketchView::empty(config).record_all(first + second),
{
    let a = SketchView::empty(config).record_all(first);
    let b = SketchView::empty(other_config).record_all(second);
    let all = SketchView::empty(config).record_all(first + second);
    merging_matches_recording(a, other_config, second);
    recording_in_parts(SketchView::empty(config), first, second);
    assert forall|dimension: Dimension| #[trigger] a.merge(b).counts_in(dimension)
        == all.counts_in(dimension) by {
        dimension_merges_without_loss(config, first, other_config, second, dimension);
    }
    assert(a.merge(b).counts_in(Dimension::Agent) == all.counts_in(Dimension::Agent));
    assert(a.merge(b).counts_in(Dimension::Bead) == all.counts_in(Dimension::Bead));
    assert(a.merge(b).counts_in(Dimension::Verification) == all.counts_in(Dimension::Verification));
    assert(a.merge(b).counts_in(Dimension::Tool) == all.counts_in(Dimension::Tool));
    assert(a.merge(b).counts_in(Dimension::Provider) == all.counts_in(Dimension::Provider));
    assert(a.merge(b).counts_in(Dimension::Detail) == all.counts_in(Dimension::Detail));
    dimensions_are_counted_apart(config, first, Dimension::Agent);
    dimensions_are_counted_apart(other_config, second, Dimension::Agent);
    dimensions_are_counted_apart(config, first + second, Dimension::Agent);
    values_of_both(first, second, Dimension::Agent);
    samples_within_capacity_are_exact(config.max_latency_samples, all_latencies(first + second));
    samples_merged_within_capacity_are_exact(
        config.max_latency_samples,
        all_latencies(first),
        other_config.max_latency_samples,
        all_latencies(second),
    );
    assert(a.merge(b) =~= all);
}

} // verus!
