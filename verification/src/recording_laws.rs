//! What every sketch makes of one more entry, whatever it holds already.

use vstd::prelude::*;

use crate::dimensions::{
    value_from_detail, value_from_ids, values_from_details, values_in, Dimension,
};
use crate::entry::EntryView;
use crate::hotspots::spotted;
use crate::sketch::SketchView;
use crate::sketch_laws::{details_keep_fit, latencies_are_recorded_apart, latencies_from_details};
use crate::sorted_map::ascending;
use crate::summary_laws::{
    details_name_no_identifiers, dimensions_are_told, is_provider, is_selected, is_tool,
};
use crate::text::lowered;

verus! {

/// The values of details in a dimension are picked from the details in their order.
proof fn values_are_picked(details: Seq<(Seq<char>, Seq<char>)>)
    ensures
        values_from_details(details, Dimension::Tool) == details.filter(
            |p: (Seq<char>, Seq<char>)| is_tool(p.0),
        ).map_values(|p: (Seq<char>, Seq<char>)| p.1),
        values_from_details(details, Dimension::Provider) == details.filter(
            |p: (Seq<char>, Seq<char>)| is_provider(p.0),
        ).map_values(|p: (Seq<char>, Seq<char>)| p.1),
        values_from_details(details, Dimension::Detail) == details.filter(
            |p: (Seq<char>, Seq<char>)| is_selected(p.0),
        ).map_values(|p: (Seq<char>, Seq<char>)| lowered(p.0) + "="@ + p.1),
    decreases details.len(),
{
    reveal(Seq::filter);
    let value = |p: (Seq<char>, Seq<char>)| p.1;
    let pair = |p: (Seq<char>, Seq<char>)| lowered(p.0) + "="@ + p.1;
    let tools = details.filter(|p: (Seq<char>, Seq<char>)| is_tool(p.0));
    let providers = details.filter(|p: (Seq<char>, Seq<char>)| is_provider(p.0));
    let selected = details.filter(|p: (Seq<char>, Seq<char>)| is_selected(p.0));
    if details.len() > 0 {
        let init = details.drop_last();
        let last = details.last();
        values_are_picked(init);
        dimensions_are_told(last.0);
        let before = init.filter(|p: (Seq<char>, Seq<char>)| is_tool(p.0));
        assert(before.push(last).map_values(value) =~= before.map_values(value).push(last.1));
        let before = init.filter(|p: (Seq<char>, Seq<char>)| is_provider(p.0));
        assert(before.push(last).map_values(value) =~= before.map_values(value).push(last.1));
        let before = init.filter(|p: (Seq<char>, Seq<char>)| is_selected(p.0));
        assert(before.push(last).map_values(pair) =~= before.map_values(pair).push(pair(last)));
    } else {
        assert(tools.map_values(value) =~= Seq::empty());
        assert(providers.map_values(value) =~= Seq::empty());
        assert(selected.map_values(pair) =~= Seq::empty());
    }
}

/// The value of an identifier, where there is one.
pub open spec fn value_if_any(value: Option<Seq<char>>) -> Seq<Seq<char>> {
    match value {
        Some(text) => seq![text],
        None => Seq::empty(),
    }
}

/// The values that an entry has in each dimension: its agent name, its bead ID, its verification
/// ID, and of its details, in the order of their names, the values of those that name a tool or a
/// provider, and the selected ones with their names in small letters.
pub proof fn values_come_from_fields(entry: EntryView)
    ensures
        values_in(entry, Dimension::Agent) == value_if_any(entry.ids.agent_name),
        values_in(entry, Dimension::Bead) == value_if_any(entry.ids.bead_id),
        values_in(entry, Dimension::Verification) == value_if_any(entry.ids.verification_id),
        ({
            let details = ascending::<String, Seq<char>>(entry.details);
            &&& values_in(entry, Dimension::Tool) == details.filter(
                |p: (Seq<char>, Seq<char>)| is_tool(p.0),
            ).map_values(|p: (Seq<char>, Seq<char>)| p.1)
            &&& values_in(entry, Dimension::Provider) == details.filter(
                |p: (Seq<char>, Seq<char>)| is_provider(p.0),
            ).map_values(|p: (Seq<char>, Seq<char>)| p.1)
            &&& values_in(entry, Dimension::Detail) == details.filter(
                |p: (Seq<char>, Seq<char>)| is_selected(p.0),
            ).map_values(|p: (Seq<char>, Seq<char>)| lowered(p.0) + "="@ + p.1)
        }),
{
    let details = ascending::<String, Seq<char>>(entry.details);
    details_name_no_identifiers(details, Dimension::Agent);
    details_name_no_identifiers(details, Dimension::Bead);
    details_name_no_identifiers(details, Dimension::Verification);
    values_are_picked(details);
    assert(values_in(entry, Dimension::Agent) =~= value_if_any(entry.ids.agent_name));
    assert(values_in(entry, Dimension::Bead) =~= value_if_any(entry.ids.bead_id));
    assert(values_in(entry, Dimension::Verification) =~= value_if_any(entry.ids.verification_id));
}

/// Counts with some more values, one after the other.
pub open spec fn counted_one_by_one(
    counts: Map<Seq<char>, u64>,
    values: Seq<Seq<char>>,
    capacity: nat,
) -> Map<Seq<char>, u64>
    decreases values.len(),
{
    if values.len() == 0 {
        counts
    } else {
        spotted(
            counted_one_by_one(counts, values.drop_last(), capacity),
            values.last(),
            capacity,
        )
    }
}

/// Details are counted one by one.
proof fn details_are_counted_one_by_one(
    sketch: SketchView,
    details: Seq<(Seq<char>, Seq<char>)>,
    dimension: Dimension,
)
    ensures
        sketch.with_details(details).config == sketch.config,
        sketch.with_details(details).counts_in(dimension) == counted_one_by_one(
            sketch.counts_in(dimension),
            values_from_details(details, dimension),
            sketch.config.max_hotspots as nat,
        ),
    decreases details.len(),
{
    if details.len() > 0 {
        let init = details.drop_last();
        let others = values_from_details(init, dimension);
        details_are_counted_one_by_one(sketch, init, dimension);
        if let Some(value) = value_from_detail(details.last().0, details.last().1, dimension) {
            assert(others.push(value).drop_last() =~= others);
        }
    }
}

/// Values are counted in parts as they are together.
proof fn counting_in_parts(
    counts: Map<Seq<char>, u64>,
    first: Seq<Seq<char>>,
    second: Seq<Seq<char>>,
    capacity: nat,
)
    ensures
        counted_one_by_one(counted_one_by_one(counts, first, capacity), second, capacity)
            == counted_one_by_one(counts, first + second, capacity),
    decreases second.len(),
{
    if second.len() == 0 {
        assert(first + second =~= first);
    } else {
        counting_in_parts(counts, first, second.drop_last(), capacity);
        assert((first + second).drop_last() =~= first + second.drop_last());
    }
}

/// A sketch that records an entry counts, in each dimension, the values that the entry has there,
/// one by one, and records the latencies of its details; it keeps its schema and its capacities.
pub proof fn recording_counts_the_values_of_the_entry(
    sketch: SketchView,
    entry: EntryView,
    dimension: Dimension,
)
    ensures
        sketch.record(entry).schema == sketch.schema,
        sketch.record(entry).config == sketch.config,
        sketch.record(entry).counts_in(dimension) == counted_one_by_one(
            sketch.counts_in(dimension),
            values_in(entry, dimension),
            sketch.config.max_hotspots as nat,
        ),
        sketch.record(entry).latency_ms == sketch.latency_ms.record_all(
            latencies_from_details(ascending::<String, Seq<char>>(entry.details)),
        ),
{
    let details = ascending::<String, Seq<char>>(entry.details);
    let headed = sketch.with_heading(entry);
    let cap = sketch.config.max_hotspots as nat;
    let from_details = values_from_details(details, dimension);
    details_keep_fit(headed, details);
    details_are_counted_one_by_one(headed, details, dimension);
    latencies_are_recorded_apart(headed, details, sketch.latency_ms, Seq::empty());
    assert(Seq::<u64>::empty() + latencies_from_details(details) =~= latencies_from_details(
        details,
    ));
    if let Some(value) = value_from_ids(entry, dimension) {
        let none = Seq::<Seq<char>>::empty();
        assert(seq![value].drop_last() =~= none);
        assert(counted_one_by_one(sketch.counts_in(dimension), none, cap) == sketch.counts_in(
            dimension,
        ));
        counting_in_parts(sketch.counts_in(dimension), seq![value], from_details, cap);
    }
}

} // verus!
