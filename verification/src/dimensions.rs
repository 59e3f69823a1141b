//! The dimensions in which hot spots are counted, and the values that entries have in them.

use vstd::prelude::*;

use crate::entry::{entry_views, EntryView, SwarmActivityLedgerEntry};
use crate::hotspots::{tallied, tally_value, tallying_one_more};
use crate::sorted_map::{ascending, SortedMap};
use crate::text::{lower, lowered, same_text};

verus! {

/// What a hot spot counts.
#[derive(Debug, Clone, Copy, PartialEq, Eq, Structural)]
pub enum Dimension {
    /// Agents.
    Agent,
    /// Beads issues.
    Bead,
    /// Verifications.
    Verification,
    /// Tools, from detail fields.
    Tool,
    /// Providers and models, from detail fields.
    Provider,
    /// Selected details, each with its name.
    Detail,
}

/// Whether a detail of this name, in small letters, counts as the name of a tool.
pub open spec fn names_tool(name: Seq<char>) -> bool {
    name == "tool"@ || name == "tool_name"@
}

/// Whether a detail of this name, in small letters, counts as the name of a provider.
pub open spec fn names_provider(name: Seq<char>) -> bool {
    name == "model"@ || name == "provider"@
}

/// Whether a detail of this name, in small letters, is counted with its value.
pub open spec fn names_detail(name: Seq<char>) -> bool {
    ||| name == "command"@
    ||| name == "decision"@
    ||| name == "exit_code"@
    ||| name == "model"@
    ||| name == "provider"@
    ||| name == "status"@
    ||| name == "tool"@
    ||| name == "tool_name"@
    ||| name == "verification_id"@
}

/// The value that a detail gives in a dimension, where it gives one.
pub open spec fn value_from_detail(
    key: Seq<char>,
    value: Seq<char>,
    dimension: Dimension,
) -> Option<Seq<char>> {
    let name = lowered(key);
    match dimension {
        Dimension::Tool if names_tool(name) => Some(value),
        Dimension::Provider if names_provider(name) => Some(value),
        Dimension::Detail if names_detail(name) => Some(name + "="@ + value),
        _ => None,
    }
}

/// The values that details give in a dimension, in their order.
pub open spec fn values_from_details(
    details: Seq<(Seq<char>, Seq<char>)>,
    dimension: Dimension,
) -> Seq<Seq<char>>
    decreases details.len(),
{
    if details.len() == 0 {
        Seq::empty()
    } else {
        let others = values_from_details(details.drop_last(), dimension);
        match value_from_detail(details.last().0, details.last().1, dimension) {
            Some(value) => others.push(value),
            None => others,
        }
    }
}

/// The value that the identifiers of an entry give in a dimension, where they give one.
pub open spec fn value_from_ids(entry: EntryView, dimension: Dimension) -> Option<Seq<char>> {
    match dimension {
        Dimension::Agent => entry.ids.agent_name,
        Dimension::Bead => entry.ids.bead_id,
        Dimension::Verification => entry.ids.verification_id,
        _ => None,
    }
}

/// The values that an entry has in a dimension: that of its identifiers and those of its details,
/// in ascending order of their names.
pub open spec fn values_in(entry: EntryView, dimension: Dimension) -> Seq<Seq<char>> {
    let from_details = values_from_details(
        ascending::<String, Seq<char>>(entry.details),
        dimension,
    );
    match value_from_ids(entry, dimension) {
        Some(value) => seq![value] + from_details,
        None => from_details,
    }
}

/// The values that entries have in a dimension, in their order.
pub open spec fn all_values(entries: Seq<EntryView>, dimension: Dimension) -> Seq<Seq<char>>
    decreases entries.len(),
{
    if entries.len() == 0 {
        Seq::empty()
    } else {
        all_values(entries.drop_last(), dimension) + values_in(entries.last(), dimension)
    }
}

/// Whether a detail of this name counts as the name of a tool.
pub fn is_tool_name(name: &str) -> (r: bool)
    ensures
        r == names_tool(name@),
{
    same_text(name, "tool") || same_text(name, "tool_name")
}

/// Whether a detail of this name counts as the name of a provider.
pub fn is_provider_name(name: &str) -> (r: bool)
    ensures
        r == names_provider(name@),
{
    same_text(name, "model") || same_text(name, "provider")
}

/// Whether a detail of this name is counted with its value.
pub fn is_detail_name(name: &str) -> (r: bool)
    ensures
        r == names_detail(name@),
{
    same_text(name, "command") || same_text(name, "decision") || same_text(name, "exit_code")
        || same_text(name, "model") || same_text(name, "provider") || same_text(name, "status")
        || same_text(name, "tool") || same_text(name, "tool_name") || same_text(
        name,
        "verification_id",
    )
}

/// The value that a detail gives in a dimension.
fn read_value_from_detail(key: &str, value: &str, dimension: Dimension) -> (r: Option<String>)
    ensures
        r is Some == value_from_detail(key@, value@, dimension) is Some,
        r is Some ==> r->Some_0@ == value_from_detail(key@, value@, dimension)->Some_0,
{
    let name = lower(key);
    match dimension {
        Dimension::Tool => {
            if is_tool_name(name.as_str()) {
                Some(value.to_owned())
            } else {
                None
            }
        },
        Dimension::Provider => {
            if is_provider_name(name.as_str()) {
                Some(value.to_owned())
            } else {
                None
            }
        },
        Dimension::Detail => {
            if is_detail_name(name.as_str()) {
                let mut detail = name;
                detail.append("=");
                detail.append(value);
                Some(detail)
            } else {
                None
            }
        },
        _ => None,
    }
}

/// Counts the values of an entry in a dimension, after those of the entries ahead of it.
fn tally_entry(
    counts: &mut SortedMap<String, u64>,
    entry: &SwarmActivityLedgerEntry,
    dimension: Dimension,
    Ghost(earlier): Ghost<Seq<Seq<char>>>,
)
    requires
        old(counts)@ == tallied(earlier),
    ensures
        final(counts)@ == tallied(earlier + values_in(entry@, dimension)),
{
    let from_ids = match dimension {
        Dimension::Agent => &entry.ids.agent_name,
        Dimension::Bead => &entry.ids.bead_id,
        Dimension::Verification => &entry.ids.verification_id,
        _ => &None,
    };
    let ghost mut seen = earlier;
    if let Some(value) = from_ids {
        tally_value(counts, value.as_str());
        proof {
            tallying_one_more(seen, value@);
            seen = seen.push(value@);
        }
    }
    let details = entry.details();
    let n: usize = details.len();
    let ghost pairs = details.pairs();
    assert(seen + values_from_details(pairs.take(0), dimension) =~= seen);
    let mut i: usize = 0;
    while i < n
        invariant
            i <= n == pairs.len(),
            pairs == details.pairs(),
            counts@ == tallied(seen + values_from_details(pairs.take(i as int), dimension)),
        decreases n - i,
    {
        let ghost before = values_from_details(pairs.take(i as int), dimension);
        assert(pairs.take(i + 1).drop_last() =~= pairs.take(i as int));
        let given = read_value_from_detail(
            details.key_at(i).as_str(),
            details.value_at(i).as_str(),
            dimension,
        );
        if let Some(value) = given {
            tally_value(counts, value.as_str());
            proof {
                tallying_one_more(seen + before, value@);
                assert((seen + before).push(value@) =~= seen + before.push(value@));
            }
        }
        i += 1;
    }
    assert(pairs.take(n as int) =~= pairs);
    assert(seen + values_from_details(pairs, dimension) =~= earlier + values_in(entry@, dimension));
}

/// The counts of all values that entries have in a dimension.
pub fn tally(entries: &[SwarmActivityLedgerEntry], dimension: Dimension) -> (r: SortedMap<
    String,
    u64,
>)
    ensures
        r@ == tallied(all_values(entry_views(entries@), dimension)),
{
    let ghost all = entry_views(entries@);
    let mut counts: SortedMap<String, u64> = SortedMap::new();
    let mut i: usize = 0;
    while i < entries.len()
        invariant
            i <= entries@.len(),
            all == entry_views(entries@),
            counts@ == tallied(all_values(all.take(i as int), dimension)),
        decreases entries@.len() - i,
    {
        let ghost earlier = all_values(all.take(i as int), dimension);
        tally_entry(&mut counts, &entries[i], dimension, Ghost(earlier));
        assert(all.take(i + 1).drop_last() =~= all.take(i as int));
        i += 1;
    }
    assert(all.take(entries@.len() as int) =~= all);
    counts
}

} // verus!
