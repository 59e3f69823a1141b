//! What holds of every ledger.

use vstd::prelude::*;

use crate::dimensions::{all_values, Dimension};
use crate::entry::{EntryView, IdsView, SwarmActivityKind};
use crate::hotspot_laws::values_within_capacity_are_tallied;
use crate::hotspots::tallied;
use crate::jsonl::{admitted, FaultView};
use crate::ledger::{details_are_redacted, entry_at, is_ledger, summarized};
use crate::redaction::{is_sensitive, redacted, redacted_pairs, sensitive_names, REDACTED};
use crate::sketch::{SketchView, SwarmActivitySummaryConfig};
use crate::sketch_laws::{dimensions_are_counted_apart, keys_in};
use crate::sorted_map::map_of_binds;
use crate::text::trimmed;

verus! {

/// Appending an event keeps a ledger: the sequences go on numbering the entries, all have the
/// current schema, and all are redacted.
pub proof fn appending_keeps_ledger(
    entries: Seq<EntryView>,
    timestamp_ms: u64,
    kind: SwarmActivityKind,
    ids: IdsView,
    summary: Seq<char>,
    details: Seq<(Seq<char>, Seq<char>)>,
)
    requires
        is_ledger(entries),
        entries.len() <= u64::MAX,
        details.len() < usize::MAX,
    ensures
        is_ledger(
            entries.push(
                entry_at(entries.len() as int, timestamp_ms, kind, ids, summary, details),
            ),
        ),
{
    let added = entry_at(entries.len() as int, timestamp_ms, kind, ids, summary, details);
    sensitive_names_are_few(seq![("summary"@, summary)] + details);
    map_of_binds(redacted_pairs(details));
    assert forall|name: Seq<char>| #[trigger]
        added.details.contains_key(name) && is_sensitive(name, added.details[name]) implies added.details[name]
        == REDACTED@ by {
        details_are_redacted(details, name);
    }
}

/// No more fields are redacted than there are.
proof fn sensitive_names_are_few(pairs: Seq<(Seq<char>, Seq<char>)>)
    ensures
        sensitive_names(pairs).len() <= pairs.len(),
    decreases pairs.len(),
{
    if pairs.len() > 0 {
        sensitive_names_are_few(pairs.drop_last());
    }
}

/// A later entry of a ledger has a greater sequence.
pub proof fn sequences_ascend(entries: Seq<EntryView>, i: int, j: int)
    requires
        is_ledger(entries),
        0 <= i < j < entries.len(),
    ensures
        entries[i].sequence < entries[j].sequence,
{
}

/// Redacting what is redacted already changes nothing.
pub proof fn redaction_is_idempotent(field: Seq<char>, value: Seq<char>)
    ensures
        redacted(field, redacted(field, value)) == redacted(field, value),
{
}

/// The names of redacted fields are those of the sensitive ones, and of no others.
pub proof fn redaction_names_sensitive_fields(pairs: Seq<(Seq<char>, Seq<char>)>, name: Seq<char>)
    ensures
        sensitive_names(pairs).contains(name) <==> exists|i: int|
            0 <= i < pairs.len() && (#[trigger] pairs[i]).0 == name && is_sensitive(
                pairs[i].0,
                pairs[i].1,
            ),
    decreases pairs.len(),
{
    if pairs.len() > 0 {
        let init = pairs.drop_last();
        let names = sensitive_names(pairs);
        let earlier = sensitive_names(init);
        let last = pairs.len() - 1;
        redaction_names_sensitive_fields(init, name);
        if exists|i: int|
            0 <= i < pairs.len() && (#[trigger] pairs[i]).0 == name && is_sensitive(
                pairs[i].0,
                pairs[i].1,
            ) {
            let i = choose|i: int|
                0 <= i < pairs.len() && (#[trigger] pairs[i]).0 == name && is_sensitive(
                    pairs[i].0,
                    pairs[i].1,
                );
            if i < last {
                assert(init[i] == pairs[i]);
                let k = choose|k: int| 0 <= k < earlier.len() && earlier[k] == name;
                assert(names[k] == name);
            } else {
                assert(names[names.len() - 1] == name);
            }
        }
    }
}

/// A sketch with room for all different keys of its entries gives the summary of these entries.
pub proof fn sketch_within_capacity_summarizes_exactly(
    config: SwarmActivitySummaryConfig,
    entries: Seq<EntryView>,
)
    requires
        forall|dimension: Dimension| #[trigger] keys_in(entries, dimension) <= config.max_hotspots,
    ensures
        SketchView::empty(config).record_all(entries).summary() == summarized(entries, config),
{
    let sketch = SketchView::empty(config).record_all(entries);
    assert forall|dimension: Dimension| #[trigger] sketch.counts_in(dimension) == tallied(
        all_values(entries, dimension),
    ) && sketch.config == config by {
        dimensions_are_counted_apart(config, entries, dimension);
        assert(keys_in(entries, dimension) <= config.max_hotspots);
        values_within_capacity_are_tallied(
            all_values(entries, dimension),
            config.max_hotspots as nat,
        );
    }
    assert(sketch.counts_in(Dimension::Agent) == sketch.agent_counts);
    assert(sketch.counts_in(Dimension::Bead) == sketch.bead_counts);
    assert(sketch.counts_in(Dimension::Verification) == sketch.verification_counts);
    assert(sketch.counts_in(Dimension::Tool) == sketch.tool_counts);
    assert(sketch.counts_in(Dimension::Provider) == sketch.provider_counts);
    assert(sketch.counts_in(Dimension::Detail) == sketch.detail_counts);
}

/// The line of a fault.
pub open spec fn line_of(fault: FaultView) -> int {
    match fault {
        FaultView::Parse { line, .. } => line,
        FaultView::UnsupportedSchema { line, .. } => line,
        FaultView::MissingCorrelationId { line } => line,
    }
}

/// A fault is that of the first line that has one: all lines ahead of it are read.
pub proof fn fault_is_the_first(rows: Seq<Seq<char>>)
    requires
        admitted(rows) is Err,
    ensures
        1 <= line_of(admitted(rows)->Err_0) <= rows.len(),
        admitted(rows.take(line_of(admitted(rows)->Err_0) - 1)) is Ok,
    decreases rows.len(),
{
    let init = rows.drop_last();
    if admitted(init) is Err {
        fault_is_the_first(init);
        let line = line_of(admitted(init)->Err_0);
        assert(init.take(line - 1) =~= rows.take(line - 1));
    }
}

/// Every entry that is read has the current schema and a correlation ID.
pub proof fn admitted_entries_are_admissible(rows: Seq<Seq<char>>, i: int)
    requires
        admitted(rows) is Ok,
        0 <= i < admitted(rows)->Ok_0.len(),
    ensures
        admitted(rows)->Ok_0[i].is_current(),
        trimmed(admitted(rows)->Ok_0[i].ids.correlation_id).len() > 0,
    decreases rows.len(),
{
    let init = rows.drop_last();
    let earlier = admitted(init)->Ok_0;
    if i < earlier.len() {
        admitted_entries_are_admissible(init, i);
    }
}

} // verus!
