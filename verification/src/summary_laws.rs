//! What every summary says of the entries that it stands for, field by field.

use vstd::prelude::*;

use crate::counts::{count_of, counts_are_exact};
use crate::dimensions::{
    all_values, value_from_detail, value_from_ids, values_from_details, values_in, Dimension,
};
use crate::entry::{EntryView, SwarmActivityKind};
use crate::hotspot_laws::{
    is_hotter, keeps_the_hottest, keys_are_dropped_for_want_of_room, listed_counts_are_exact,
    merging_keeps_the_hottest, retained_keys_came, spotted_all, top_exists, top_lists_the_hottest,
};
use crate::hotspots::{
    bounded_key, rank, ranks_differ, spot_keys, spots_merged, tallied, top_of, HotspotView,
};
use crate::latency::LatencyView;
use crate::latency_laws::{
    is_within_bound, percentiles_are_within_bound, recorded_sketch_is_of_samples,
    summary_figures_ascend,
};
use crate::ledger::summarized;
use crate::redaction_laws::{is_letter_of, letters_become_small, spells};
use crate::sketch::{latency_of, SketchView, SummaryView, SwarmActivitySummaryConfig};
use crate::sketch_laws::{
    all_latencies, clamped, dimensions_are_counted_apart, entries_of, keys_of_both,
    latencies_from_details, latency_from_detail, recording_counts_exactly, redacted_entries,
    redacted_fields,
};
use crate::sorted_map::{ascending, ascending_exists, ascending_map_binds};
use crate::text::{lower_char, lowered, trimmed};

verus! {

/// Whether a text is counted under a key: it is not blank, and the key is what is left of it
/// when it is trimmed and shortened.
pub open spec fn counts_under(text: Seq<char>, key: Seq<char>) -> bool {
    trimmed(text).len() > 0 && key == bounded_key(trimmed(text))
}

/// Whether a list gives the hottest keys, each with the number of times it came, up to the
/// greatest count, the hotter ahead; and leaves out a key that came only where the list is full
/// and all that it gives are hotter.
pub open spec fn lists_the_hottest(
    list: Seq<HotspotView>,
    capacity: nat,
    times: spec_fn(Seq<char>) -> nat,
) -> bool {
    &&& list.len() <= capacity
    &&& forall|i: int|
        0 <= i < list.len() ==> times((#[trigger] list[i]).key) > 0 && list[i].count == clamped(
            times(list[i].key),
        )
    &&& forall|i: int, j: int|
        0 <= i < j < list.len() ==> is_hotter(
            (#[trigger] list[i]).key,
            list[i].count,
            (#[trigger] list[j]).key,
            list[j].count,
        )
    &&& forall|key: Seq<char>| #[trigger]
        times(key) > 0 && (forall|i: int| 0 <= i < list.len() ==> (#[trigger] list[i]).key != key)
            ==> list.len() == capacity && forall|i: int|
            0 <= i < list.len() ==> is_hotter(
                (#[trigger] list[i]).key,
                list[i].count,
                key,
                clamped(times(key)),
            )
}

/// The first keys of a tally are the hottest, by the number of times they came.
proof fn tally_lists_the_hottest(
    values: Seq<Seq<char>>,
    capacity: nat,
    times: spec_fn(Seq<char>) -> nat,
)
    requires
        forall|key: Seq<char>| #[trigger]
            times(key) == spot_keys(values).to_multiset().count(key),
    ensures
        lists_the_hottest(top_of(tallied(values), capacity), capacity, times),
{
    broadcast use vstd::seq_lib::group_to_multiset_ensures;

    let keys = spot_keys(values);
    let counts = tallied(values);
    let list = top_of(counts, capacity);
    counts_are_exact(keys, Seq::empty());
    top_lists_the_hottest(counts, capacity);
    assert forall|key: Seq<char>| #[trigger] times(key) > 0 <==> counts.contains_key(key) by {
        counts_are_exact(keys, key);
    }
    assert forall|key: Seq<char>| #[trigger] counts.contains_key(key) implies counts[key] == clamped(
        times(key),
    ) by {
        counts_are_exact(keys, key);
    }
    assert forall|key: Seq<char>| #[trigger]
        times(key) > 0 && (forall|i: int|
            0 <= i < list.len() ==> (#[trigger] list[i]).key != key) implies list.len() == capacity
        && forall|i: int|
        0 <= i < list.len() ==> is_hotter(
            (#[trigger] list[i]).key,
            list[i].count,
            key,
            clamped(times(key)),
        ) by {
        assert(counts.contains_key(key));
        if list.len() < capacity {
            let place = rank(counts, key) as int;
            top_exists(counts, capacity);
            ranks_differ(counts, key, key);
            ranks_differ(counts, key, list[place].key);
        }
    }
}

/// Of the keys of two lists of values, a key stands in both together as often as in each.
proof fn keys_add_up(first: Seq<Seq<char>>, second: Seq<Seq<char>>, key: Seq<char>)
    ensures
        spot_keys(first + second).to_multiset().count(key) == spot_keys(first).to_multiset().count(
            key,
        ) + spot_keys(second).to_multiset().count(key),
{
    keys_of_both(first, second);
    vstd::seq_lib::lemma_multiset_commutative(spot_keys(first), spot_keys(second));
}

/// One value is counted under its key alone.
proof fn one_value_counts_once(value: Seq<char>, key: Seq<char>)
    ensures
        spot_keys(seq![value]).to_multiset().count(key) == if counts_under(value, key) {
            1nat
        } else {
            0nat
        },
{
    broadcast use vstd::seq_lib::group_to_multiset_ensures;

    let none = Seq::<Seq<char>>::empty();
    assert(seq![value].drop_last() =~= none);
    assert(spot_keys(none) =~= none);
    assert(none.to_multiset().count(key) == 0);
    if trimmed(value).len() > 0 {
        assert(spot_keys(seq![value]) =~= none.push(bounded_key(trimmed(value))));
    }
}

/// Details give nothing to the dimensions of identifiers.
pub proof fn details_name_no_identifiers(details: Seq<(Seq<char>, Seq<char>)>, dimension: Dimension)
    requires
        dimension is Agent || dimension is Bead || dimension is Verification,
    ensures
        values_from_details(details, dimension) == Seq::<Seq<char>>::empty(),
    decreases details.len(),
{
    if details.len() > 0 {
        details_name_no_identifiers(details.drop_last(), dimension);
    }
}

/// The entries whose identifier is counted under a key.
spec fn places(
    entries: Seq<EntryView>,
    pick: spec_fn(EntryView) -> Option<Seq<char>>,
    key: Seq<char>,
) -> Set<int> {
    Set::new(
        |i: int|
            0 <= i < entries.len() && (pick(entries[i]) matches Some(text) && counts_under(
                text,
                key,
            )),
    )
}

/// A key of identifiers comes as often as there are entries whose identifier is counted under
/// it.
proof fn identifiers_are_counted(
    entries: Seq<EntryView>,
    dimension: Dimension,
    pick: spec_fn(EntryView) -> Option<Seq<char>>,
    key: Seq<char>,
)
    requires
        dimension is Agent || dimension is Bead || dimension is Verification,
        forall|entry: EntryView| #[trigger] pick(entry) == value_from_ids(entry, dimension),
    ensures
        places(entries, pick, key).finite(),
        spot_keys(all_values(entries, dimension)).to_multiset().count(key) == places(
            entries,
            pick,
            key,
        ).len(),
    decreases entries.len(),
{
    broadcast use vstd::seq_lib::group_to_multiset_ensures;

    let none = Seq::<Seq<char>>::empty();
    if entries.len() == 0 {
        assert(places(entries, pick, key) =~= Set::empty());
        assert(spot_keys(all_values(entries, dimension)) =~= none);
        assert(none.to_multiset().count(key) == 0);
    } else {
        let init = entries.drop_last();
        let entry = entries.last();
        let at = entries.len() - 1;
        identifiers_are_counted(init, dimension, pick, key);
        details_name_no_identifiers(ascending::<String, Seq<char>>(entry.details), dimension);
        keys_add_up(all_values(init, dimension), values_in(entry, dimension), key);
        assert forall|i: int| 0 <= i < at implies #[trigger] init[i] == entries[i] by {}
        match pick(entry) {
            Some(value) => {
                assert(values_in(entry, dimension) =~= seq![value]);
                one_value_counts_once(value, key);
                if counts_under(value, key) {
                    assert(places(entries, pick, key) =~= places(init, pick, key).insert(at));
                } else {
                    assert(places(entries, pick, key) =~= places(init, pick, key));
                }
            },
            None => {
                assert(values_in(entry, dimension) =~= none);
                assert(spot_keys(none) =~= none);
                assert(none.to_multiset().count(key) == 0);
                assert(places(entries, pick, key) =~= places(init, pick, key));
            },
        }
    }
}

/// The number of entries whose agent is counted under a key.
pub open spec fn entries_of_agent(entries: Seq<EntryView>, key: Seq<char>) -> nat {
    Set::new(
        |i: int|
            0 <= i < entries.len() && (entries[i].ids.agent_name matches Some(text)
                && counts_under(text, key)),
    ).len()
}

/// The number of entries whose Beads issue is counted under a key.
pub open spec fn entries_of_bead(entries: Seq<EntryView>, key: Seq<char>) -> nat {
    Set::new(
        |i: int|
            0 <= i < entries.len() && (entries[i].ids.bead_id matches Some(text) && counts_under(
                text,
                key,
            )),
    ).len()
}

/// The number of entries whose verification is counted under a key.
pub open spec fn entries_of_verification(entries: Seq<EntryView>, key: Seq<char>) -> nat {
    Set::new(
        |i: int|
            0 <= i < entries.len() && (entries[i].ids.verification_id matches Some(text)
                && counts_under(text, key)),
    ).len()
}

/// A key of agents comes as often as entries name an agent under it.
proof fn agents_are_counted(entries: Seq<EntryView>, key: Seq<char>)
    ensures
        spot_keys(all_values(entries, Dimension::Agent)).to_multiset().count(key)
            == entries_of_agent(entries, key),
{
    let pick = |e: EntryView| e.ids.agent_name;
    identifiers_are_counted(entries, Dimension::Agent, pick, key);
    assert(places(entries, pick, key) =~= Set::new(
        |i: int|
            0 <= i < entries.len() && (entries[i].ids.agent_name matches Some(text)
                && counts_under(text, key)),
    ));
}

/// A key of Beads issues comes as often as entries name an issue under it.
proof fn beads_are_counted(entries: Seq<EntryView>, key: Seq<char>)
    ensures
        spot_keys(all_values(entries, Dimension::Bead)).to_multiset().count(key)
            == entries_of_bead(entries, key),
{
    let pick = |e: EntryView| e.ids.bead_id;
    identifiers_are_counted(entries, Dimension::Bead, pick, key);
    assert(places(entries, pick, key) =~= Set::new(
        |i: int|
            0 <= i < entries.len() && (entries[i].ids.bead_id matches Some(text) && counts_under(
                text,
                key,
            )),
    ));
}

/// A key of verifications comes as often as entries name a verification under it.
proof fn verifications_are_counted(entries: Seq<EntryView>, key: Seq<char>)
    ensures
        spot_keys(all_values(entries, Dimension::Verification)).to_multiset().count(key)
            == entries_of_verification(entries, key),
{
    let pick = |e: EntryView| e.ids.verification_id;
    identifiers_are_counted(entries, Dimension::Verification, pick, key);
    assert(places(entries, pick, key) =~= Set::new(
        |i: int|
            0 <= i < entries.len() && (entries[i].ids.verification_id matches Some(text)
                && counts_under(text, key)),
    ));
}

/// A name is a word in small letters where it spells the word, in whatever case.
proof fn names_are_spelled(name: Seq<char>, word: Seq<char>)
    requires
        forall|i: int| 0 <= i < word.len() ==> !(65 <= (#[trigger] word[i]) as u32 <= 90),
    ensures
        lowered(name) == word <==> spells(name, word),
{
    let small = lowered(name);
    assert forall|i: int| 0 <= i < word.len() && i < name.len() implies (small[i] == word[i])
        == is_letter_of(#[trigger] name[i], word[i]) by {
        letters_become_small(name[i], word[i]);
        assert(small[i] == lower_char(name[i]));
    }
    if spells(name, word) {
        assert forall|i: int| 0 <= i < small.len() implies #[trigger] small[i] == word[i] by {
            assert(is_letter_of(name[i], word[i]));
        }
        assert(small =~= word);
    }
    if small == word {
        assert(small.len() == name.len());
    }
}

/// The details, by their places in a list, that meet a condition.
spec fn detail_places(
    details: Seq<(Seq<char>, Seq<char>)>,
    meets: spec_fn(Seq<char>, Seq<char>) -> bool,
) -> Set<int> {
    Set::new(|i: int| 0 <= i < details.len() && meets(details[i].0, details[i].1))
}

/// Whether a detail gives a value that is counted under a key.
spec fn gives(
    give: spec_fn(Seq<char>, Seq<char>) -> Option<Seq<char>>,
    key: Seq<char>,
) -> spec_fn(Seq<char>, Seq<char>) -> bool {
    |name: Seq<char>, value: Seq<char>|
        give(name, value) matches Some(text) && counts_under(text, key)
}

/// A key of details comes as often as there are details whose value is counted under it.
proof fn listed_details_are_counted(
    details: Seq<(Seq<char>, Seq<char>)>,
    dimension: Dimension,
    give: spec_fn(Seq<char>, Seq<char>) -> Option<Seq<char>>,
    key: Seq<char>,
)
    requires
        forall|name: Seq<char>, value: Seq<char>| #[trigger]
            give(name, value) == value_from_detail(name, value, dimension),
    ensures
        detail_places(details, gives(give, key)).finite(),
        spot_keys(values_from_details(details, dimension)).to_multiset().count(key)
            == detail_places(details, gives(give, key)).len(),
    decreases details.len(),
{
    broadcast use vstd::seq_lib::group_to_multiset_ensures;

    let none = Seq::<Seq<char>>::empty();
    if details.len() == 0 {
        assert(detail_places(details, gives(give, key)) =~= Set::empty());
        assert(spot_keys(values_from_details(details, dimension)) =~= none);
        assert(none.to_multiset().count(key) == 0);
    } else {
        let init = details.drop_last();
        let (name, value) = details.last();
        let at = details.len() - 1;
        listed_details_are_counted(init, dimension, give, key);
        assert forall|i: int| 0 <= i < at implies #[trigger] init[i] == details[i] by {}
        let others = values_from_details(init, dimension);
        match give(name, value) {
            Some(text) => {
                assert(others.push(text) =~= others + seq![text]);
                keys_add_up(others, seq![text], key);
                one_value_counts_once(text, key);
                if counts_under(text, key) {
                    assert(detail_places(details, gives(give, key)) =~= detail_places(
                        init,
                        gives(give, key),
                    ).insert(at));
                } else {
                    assert(detail_places(details, gives(give, key)) =~= detail_places(
                        init,
                        gives(give, key),
                    ));
                }
            },
            None => {
                assert(detail_places(details, gives(give, key)) =~= detail_places(
                    init,
                    gives(give, key),
                ));
            },
        }
    }
}

/// The details of entries, by the place of the entry and the name, that meet a condition.
spec fn named_places(
    entries: Seq<EntryView>,
    meets: spec_fn(Seq<char>, Seq<char>) -> bool,
) -> Set<(int, Seq<char>)> {
    Set::new(
        |p: (int, Seq<char>)|
            0 <= p.0 < entries.len() && entries[p.0].details.contains_key(p.1) && meets(
                p.1,
                entries[p.0].details[p.1],
            ),
    )
}

/// The details of one entry are as many by their names as by their places.
proof fn details_by_name(
    entries: Seq<EntryView>,
    at: int,
    meets: spec_fn(Seq<char>, Seq<char>) -> bool,
)
    requires
        0 <= at < entries.len(),
        entries[at].details.dom().finite(),
        detail_places(ascending::<String, Seq<char>>(entries[at].details), meets).finite(),
    ensures
        ({
            let own = named_places(entries, meets).filter(|p: (int, Seq<char>)| p.0 == at);
            &&& own.finite()
            &&& own.len() == detail_places(
                ascending::<String, Seq<char>>(entries[at].details),
                meets,
            ).len()
        }),
{
    let details = entries[at].details;
    let pairs = ascending::<String, Seq<char>>(details);
    ascending_exists::<String, Seq<char>>(details);
    ascending_map_binds::<String, Seq<char>>(pairs);
    let from = detail_places(pairs, meets);
    let own = named_places(entries, meets).filter(|p: (int, Seq<char>)| p.0 == at);
    let f = |i: int| (at, pairs[i].0);
    assert forall|i: int, j: int| from.contains(i) && from.contains(j) && #[trigger] f(i)
        == #[trigger] f(j) implies i == j by {
        if i < j {
            assert(pairs[i].0 != pairs[j].0);
        } else if j < i {
            assert(pairs[j].0 != pairs[i].0);
        }
    }
    assert forall|p: (int, Seq<char>)| #[trigger] own.contains(p) implies from.map(f).contains(
        p,
    ) by {
        let i = choose|i: int| 0 <= i < pairs.len() && (#[trigger] pairs[i]).0 == p.1;
        assert(details[pairs[i].0] == pairs[i].1);
        assert(from.contains(i) && f(i) == p);
    }
    assert forall|p: (int, Seq<char>)| #[trigger] from.map(f).contains(p) implies own.contains(
        p,
    ) by {
        let i = choose|i: int| from.contains(i) && f(i) == p;
        assert(details.contains_key(pairs[i].0) && details[pairs[i].0] == pairs[i].1);
    }
    assert(own =~= from.map(f));
    vstd::set_lib::lemma_map_size(from, own, f);
}

/// The places of the details of entries are those of all but the last and those of the last.
proof fn places_add_up(entries: Seq<EntryView>, meets: spec_fn(Seq<char>, Seq<char>) -> bool)
    requires
        entries.len() > 0,
        entries.last().details.dom().finite(),
        detail_places(ascending::<String, Seq<char>>(entries.last().details), meets).finite(),
        named_places(entries.drop_last(), meets).finite(),
    ensures
        named_places(entries, meets).finite(),
        named_places(entries, meets).len() == named_places(entries.drop_last(), meets).len()
            + detail_places(ascending::<String, Seq<char>>(entries.last().details), meets).len(),
{
    let init = entries.drop_last();
    let at = entries.len() - 1;
    details_by_name(entries, at, meets);
    let all = named_places(entries, meets);
    let own = all.filter(|p: (int, Seq<char>)| p.0 == at);
    let others = named_places(init, meets);
    assert forall|p: (int, Seq<char>)| #[trigger] all.contains(p) <==> (own.contains(p)
        || others.contains(p)) by {
        if 0 <= p.0 < at {
            assert(init[p.0] == entries[p.0]);
        }
    }
    assert(all =~= others.union(own));
    assert(others.disjoint(own));
    vstd::set_lib::lemma_set_disjoint_lens(others, own);
}

/// A key of details comes as often as entries have a detail whose value is counted under it.
proof fn details_are_counted(
    entries: Seq<EntryView>,
    dimension: Dimension,
    give: spec_fn(Seq<char>, Seq<char>) -> Option<Seq<char>>,
    key: Seq<char>,
)
    requires
        dimension is Tool || dimension is Provider || dimension is Detail,
        forall|name: Seq<char>, value: Seq<char>| #[trigger]
            give(name, value) == value_from_detail(name, value, dimension),
        forall|i: int| 0 <= i < entries.len() ==> (#[trigger] entries[i]).details.dom().finite(),
    ensures
        named_places(entries, gives(give, key)).finite(),
        spot_keys(all_values(entries, dimension)).to_multiset().count(key) == named_places(
            entries,
            gives(give, key),
        ).len(),
    decreases entries.len(),
{
    broadcast use vstd::seq_lib::group_to_multiset_ensures;

    let none = Seq::<Seq<char>>::empty();
    if entries.len() == 0 {
        assert(named_places(entries, gives(give, key)) =~= Set::empty());
        assert(spot_keys(all_values(entries, dimension)) =~= none);
        assert(none.to_multiset().count(key) == 0);
    } else {
        let init = entries.drop_last();
        let entry = entries.last();
        let at = entries.len() - 1;
        let pairs = ascending::<String, Seq<char>>(entry.details);
        assert(entries[at].details.dom().finite());
        assert forall|i: int| 0 <= i < init.len() implies (
        #[trigger] init[i]).details.dom().finite() by {
            assert(init[i] == entries[i]);
        }
        details_are_counted(init, dimension, give, key);
        listed_details_are_counted(pairs, dimension, give, key);
        places_add_up(entries, gives(give, key));
        keys_add_up(all_values(init, dimension), values_in(entry, dimension), key);
        assert(values_in(entry, dimension) == values_from_details(pairs, dimension));
    }
}

/// Whether a detail names a tool, by its name in whatever case.
pub open spec fn is_tool(name: Seq<char>) -> bool {
    ||| spells(name, "tool"@)
    ||| spells(name, "tool_name"@)
}

/// Whether a detail names a provider or model, by its name in whatever case.
pub open spec fn is_provider(name: Seq<char>) -> bool {
    ||| spells(name, "model"@)
    ||| spells(name, "provider"@)
}

/// Whether a detail is one of the selected ones, by its name in whatever case.
pub open spec fn is_selected(name: Seq<char>) -> bool {
    ||| spells(name, "command"@)
    ||| spells(name, "decision"@)
    ||| spells(name, "exit_code"@)
    ||| spells(name, "model"@)
    ||| spells(name, "provider"@)
    ||| spells(name, "status"@)
    ||| spells(name, "tool"@)
    ||| spells(name, "tool_name"@)
    ||| spells(name, "verification_id"@)
}

/// The number of values of details that name a tool and are counted under a key, over all details
/// of all entries.
pub open spec fn details_of_tool(entries: Seq<EntryView>, key: Seq<char>) -> nat {
    Set::new(
        |p: (int, Seq<char>)|
            0 <= p.0 < entries.len() && entries[p.0].details.contains_key(p.1) && is_tool(p.1)
                && counts_under(entries[p.0].details[p.1], key),
    ).len()
}

/// The number of values of details that name a provider or model and are counted under a key,
/// over all details of all entries.
pub open spec fn details_of_provider(entries: Seq<EntryView>, key: Seq<char>) -> nat {
    Set::new(
        |p: (int, Seq<char>)|
            0 <= p.0 < entries.len() && entries[p.0].details.contains_key(p.1) && is_provider(p.1)
                && counts_under(entries[p.0].details[p.1], key),
    ).len()
}

/// The number of selected details, each written as its name in small letters, an equals sign and
/// its value, that are counted under a key, over all details of all entries.
pub open spec fn selected_details(entries: Seq<EntryView>, key: Seq<char>) -> nat {
    Set::new(
        |p: (int, Seq<char>)|
            0 <= p.0 < entries.len() && entries[p.0].details.contains_key(p.1) && is_selected(p.1)
                && counts_under(lowered(p.1) + "="@ + entries[p.0].details[p.1], key),
    ).len()
}

/// The names of the dimensions are told by their words.
pub proof fn dimensions_are_told(name: Seq<char>)
    ensures
        is_tool(name) == crate::dimensions::names_tool(lowered(name)),
        is_provider(name) == crate::dimensions::names_provider(lowered(name)),
        is_selected(name) == crate::dimensions::names_detail(lowered(name)),
{
    reveal_strlit("command");
    reveal_strlit("decision");
    reveal_strlit("exit_code");
    reveal_strlit("model");
    reveal_strlit("provider");
    reveal_strlit("status");
    reveal_strlit("tool");
    reveal_strlit("tool_name");
    reveal_strlit("verification_id");
    names_are_spelled(name, "command"@);
    names_are_spelled(name, "decision"@);
    names_are_spelled(name, "exit_code"@);
    names_are_spelled(name, "model"@);
    names_are_spelled(name, "provider"@);
    names_are_spelled(name, "status"@);
    names_are_spelled(name, "tool"@);
    names_are_spelled(name, "tool_name"@);
    names_are_spelled(name, "verification_id"@);
}

/// A key of tools comes as often as details give it.
proof fn tools_are_counted(entries: Seq<EntryView>, key: Seq<char>)
    requires
        forall|i: int| 0 <= i < entries.len() ==> (#[trigger] entries[i]).details.dom().finite(),
    ensures
        spot_keys(all_values(entries, Dimension::Tool)).to_multiset().count(key)
            == details_of_tool(entries, key),
{
    let give = |name: Seq<char>, value: Seq<char>|
        if is_tool(name) {
            Some(value)
        } else {
            None
        };
    assert forall|name: Seq<char>, value: Seq<char>| #[trigger]
        give(name, value) == value_from_detail(name, value, Dimension::Tool) by {
        dimensions_are_told(name);
    }
    details_are_counted(entries, Dimension::Tool, give, key);
    assert(named_places(entries, gives(give, key)) =~= Set::new(
        |p: (int, Seq<char>)|
            0 <= p.0 < entries.len() && entries[p.0].details.contains_key(p.1) && is_tool(p.1)
                && counts_under(entries[p.0].details[p.1], key),
    ));
}

/// A key of providers comes as often as details give it.
proof fn providers_are_counted(entries: Seq<EntryView>, key: Seq<char>)
    requires
        forall|i: int| 0 <= i < entries.len() ==> (#[trigger] entries[i]).details.dom().finite(),
    ensures
        spot_keys(all_values(entries, Dimension::Provider)).to_multiset().count(key)
            == details_of_provider(entries, key),
{
    let give = |name: Seq<char>, value: Seq<char>|
        if is_provider(name) {
            Some(value)
        } else {
            None
        };
    assert forall|name: Seq<char>, value: Seq<char>| #[trigger]
        give(name, value) == value_from_detail(name, value, Dimension::Provider) by {
        dimensions_are_told(name);
    }
    details_are_counted(entries, Dimension::Provider, give, key);
    assert(named_places(entries, gives(give, key)) =~= Set::new(
        |p: (int, Seq<char>)|
            0 <= p.0 < entries.len() && entries[p.0].details.contains_key(p.1) && is_provider(p.1)
                && counts_under(entries[p.0].details[p.1], key),
    ));
}

/// A key of selected details comes as often as details give it.
proof fn selected_details_are_counted(entries: Seq<EntryView>, key: Seq<char>)
    requires
        forall|i: int| 0 <= i < entries.len() ==> (#[trigger] entries[i]).details.dom().finite(),
    ensures
        spot_keys(all_values(entries, Dimension::Detail)).to_multiset().count(key)
            == selected_details(entries, key),
{
    let give = |name: Seq<char>, value: Seq<char>|
        if is_selected(name) {
            Some(lowered(name) + "="@ + value)
        } else {
            None
        };
    assert forall|name: Seq<char>, value: Seq<char>| #[trigger]
        give(name, value) == value_from_detail(name, value, Dimension::Detail) by {
        dimensions_are_told(name);
    }
    details_are_counted(entries, Dimension::Detail, give, key);
    assert(named_places(entries, gives(give, key)) =~= Set::new(
        |p: (int, Seq<char>)|
            0 <= p.0 < entries.len() && entries[p.0].details.contains_key(p.1) && is_selected(p.1)
                && counts_under(lowered(p.1) + "="@ + entries[p.0].details[p.1], key),
    ));
}

/// The summary of a ledger lists in each dimension the hottest of all values, each with the number
/// of times that the entries have it: agents by their agent names, Beads issues by their bead
/// IDs, verifications by their verification IDs, and tools, providers and selected details by
/// their details, and each by nothing else.
pub proof fn summaries_list_the_most_frequent_values(
    entries: Seq<EntryView>,
    config: SwarmActivitySummaryConfig,
)
    requires
        forall|i: int| 0 <= i < entries.len() ==> (#[trigger] entries[i]).details.dom().finite(),
    ensures
        ({
            let summary = summarized(entries, config);
            let cap = config.max_hotspots as nat;
            &&& lists_the_hottest(
                summary.agent_hotspots,
                cap,
                |key: Seq<char>| entries_of_agent(entries, key),
            )
            &&& lists_the_hottest(
                summary.bead_hotspots,
                cap,
                |key: Seq<char>| entries_of_bead(entries, key),
            )
            &&& lists_the_hottest(
                summary.verification_hotspots,
                cap,
                |key: Seq<char>| entries_of_verification(entries, key),
            )
            &&& lists_the_hottest(
                summary.tool_hotspots,
                cap,
                |key: Seq<char>| details_of_tool(entries, key),
            )
            &&& lists_the_hottest(
                summary.provider_hotspots,
                cap,
                |key: Seq<char>| details_of_provider(entries, key),
            )
            &&& lists_the_hottest(
                summary.detail_hotspots,
                cap,
                |key: Seq<char>| selected_details(entries, key),
            )
        }),
{
    let cap = config.max_hotspots as nat;
    let times = |key: Seq<char>| entries_of_agent(entries, key);
    assert forall|key: Seq<char>| #[trigger] times(key) == spot_keys(
        all_values(entries, Dimension::Agent),
    ).to_multiset().count(key) by {
        agents_are_counted(entries, key);
    }
    tally_lists_the_hottest(all_values(entries, Dimension::Agent), cap, times);
    let times = |key: Seq<char>| entries_of_bead(entries, key);
    assert forall|key: Seq<char>| #[trigger] times(key) == spot_keys(
        all_values(entries, Dimension::Bead),
    ).to_multiset().count(key) by {
        beads_are_counted(entries, key);
    }
    tally_lists_the_hottest(all_values(entries, Dimension::Bead), cap, times);
    let times = |key: Seq<char>| entries_of_verification(entries, key);
    assert forall|key: Seq<char>| #[trigger] times(key) == spot_keys(
        all_values(entries, Dimension::Verification),
    ).to_multiset().count(key) by {
        verifications_are_counted(entries, key);
    }
    tally_lists_the_hottest(all_values(entries, Dimension::Verification), cap, times);
    let times = |key: Seq<char>| details_of_tool(entries, key);
    assert forall|key: Seq<char>| #[trigger] times(key) == spot_keys(
        all_values(entries, Dimension::Tool),
    ).to_multiset().count(key) by {
        tools_are_counted(entries, key);
    }
    tally_lists_the_hottest(all_values(entries, Dimension::Tool), cap, times);
    let times = |key: Seq<char>| details_of_provider(entries, key);
    assert forall|key: Seq<char>| #[trigger] times(key) == spot_keys(
        all_values(entries, Dimension::Provider),
    ).to_multiset().count(key) by {
        providers_are_counted(entries, key);
    }
    tally_lists_the_hottest(all_values(entries, Dimension::Provider), cap, times);
    let times = |key: Seq<char>| selected_details(entries, key);
    assert forall|key: Seq<char>| #[trigger] times(key) == spot_keys(
        all_values(entries, Dimension::Detail),
    ).to_multiset().count(key) by {
        selected_details_are_counted(entries, key);
    }
    tally_lists_the_hottest(all_values(entries, Dimension::Detail), cap, times);
}

/// However many keys a sketch dropped, it counts each key that it retains in a dimension as often
/// as the entries have it: agents by their agent names, Beads issues by their bead IDs,
/// verifications by their verification IDs, and tools, providers and selected details by their
/// details, and each by nothing else. It drops a key that came only where it retains as many as
/// it has room for.
pub proof fn sketches_count_the_fields_of_entries(
    config: SwarmActivitySummaryConfig,
    entries: Seq<EntryView>,
    key: Seq<char>,
)
    requires
        forall|i: int| 0 <= i < entries.len() ==> (#[trigger] entries[i]).details.dom().finite(),
        forall|dimension: Dimension| #[trigger] all_values(entries, dimension).len() <= u64::MAX,
    ensures
        ({
            let sketch = SketchView::empty(config).record_all(entries);
            let cap = config.max_hotspots as nat;
            &&& counts_up_to(sketch.agent_counts, key, entries_of_agent(entries, key), cap)
            &&& counts_up_to(sketch.bead_counts, key, entries_of_bead(entries, key), cap)
            &&& counts_up_to(sketch.verification_counts, key, entries_of_verification(entries, key), cap)
            &&& counts_up_to(sketch.tool_counts, key, details_of_tool(entries, key), cap)
            &&& counts_up_to(sketch.provider_counts, key, details_of_provider(entries, key), cap)
            &&& counts_up_to(sketch.detail_counts, key, selected_details(entries, key), cap)
        }),
{
    let sketch = SketchView::empty(config).record_all(entries);
    agents_are_counted(entries, key);
    dimension_is_counted(config, entries, Dimension::Agent, key);
    assert(sketch.counts_in(Dimension::Agent) == sketch.agent_counts);
    beads_are_counted(entries, key);
    dimension_is_counted(config, entries, Dimension::Bead, key);
    assert(sketch.counts_in(Dimension::Bead) == sketch.bead_counts);
    verifications_are_counted(entries, key);
    dimension_is_counted(config, entries, Dimension::Verification, key);
    assert(sketch.counts_in(Dimension::Verification) == sketch.verification_counts);
    tools_are_counted(entries, key);
    dimension_is_counted(config, entries, Dimension::Tool, key);
    assert(sketch.counts_in(Dimension::Tool) == sketch.tool_counts);
    providers_are_counted(entries, key);
    dimension_is_counted(config, entries, Dimension::Provider, key);
    assert(sketch.counts_in(Dimension::Provider) == sketch.provider_counts);
    selected_details_are_counted(entries, key);
    dimension_is_counted(config, entries, Dimension::Detail, key);
    assert(sketch.counts_in(Dimension::Detail) == sketch.detail_counts);
}

/// Whether a retained key is counted as often as it came, and a key that came is dropped only
/// where there is no room.
pub open spec fn counts_up_to(
    counts: Map<Seq<char>, u64>,
    key: Seq<char>,
    times: nat,
    capacity: nat,
) -> bool {
    &&& counts.contains_key(key) ==> times > 0 && counts[key] == times
    &&& times > 0 && !counts.contains_key(key) ==> counts.dom().finite() && counts.len() == capacity
}

/// A dimension of a sketch counts the keys of its values.
proof fn dimension_is_counted(
    config: SwarmActivitySummaryConfig,
    entries: Seq<EntryView>,
    dimension: Dimension,
    key: Seq<char>,
)
    requires
        all_values(entries, dimension).len() <= u64::MAX,
    ensures
        counts_up_to(
            SketchView::empty(config).record_all(entries).counts_in(dimension),
            key,
            spot_keys(all_values(entries, dimension)).to_multiset().count(key),
            config.max_hotspots as nat,
        ),
{
    let values = all_values(entries, dimension);
    let cap = config.max_hotspots as nat;
    dimensions_are_counted_apart(config, entries, dimension);
    if spotted_all(values, cap).contains_key(key) {
        listed_counts_are_exact(values, cap, key);
        retained_keys_came(values, cap, key);
    } else if spot_keys(values).to_multiset().count(key) > 0 {
        keys_are_dropped_for_want_of_room(values, cap, key);
    }
}

/// Whether a summary counts entries: all of them, those in which something was redacted, the
/// fields that were, and those of each kind, up to the greatest count.
pub open spec fn counts_entries(summary: SummaryView, entries: Seq<EntryView>) -> bool {
    &&& summary.schema == "pi.swarm.activity_summary.v1"@
    &&& summary.event_count == clamped(entries.len())
    &&& summary.redacted_entry_count == clamped(
        entries.filter(|e: EntryView| e.redaction.redacted_count > 0).len(),
    )
    &&& summary.redacted_field_count == clamped(
        entries.fold_left(0nat, |sum: nat, e: EntryView| sum + e.redaction.redacted_count as nat),
    )
    &&& forall|kind: SwarmActivityKind| #[trigger]
        summary.kind_counts.contains_key(kind) <==> entries.filter(
            |e: EntryView| e.kind == kind,
        ).len() > 0
    &&& forall|kind: SwarmActivityKind| #[trigger]
        summary.kind_counts.contains_key(kind) ==> summary.kind_counts[kind] == clamped(
            entries.filter(|e: EntryView| e.kind == kind).len(),
        )
}

/// Entries are counted one by one.
proof fn entries_are_counted(entries: Seq<EntryView>, kind: SwarmActivityKind)
    ensures
        redacted_entries(entries) == entries.filter(
            |e: EntryView| e.redaction.redacted_count > 0,
        ).len(),
        redacted_fields(entries) == entries.fold_left(
            0nat,
            |sum: nat, e: EntryView| sum + e.redaction.redacted_count as nat,
        ),
        entries_of(entries, kind) == entries.filter(|e: EntryView| e.kind == kind).len(),
    decreases entries.len(),
{
    reveal(Seq::filter);
    if entries.len() > 0 {
        entries_are_counted(entries.drop_last(), kind);
    }
}

/// The summary of entries counts them, be it that of a ledger or that of a sketch.
pub proof fn summaries_count_entries(entries: Seq<EntryView>, config: SwarmActivitySummaryConfig)
    ensures
        counts_entries(summarized(entries, config), entries),
        counts_entries(SketchView::empty(config).record_all(entries).summary(), entries),
{
    let empty = SketchView::empty(config);
    let sketch = empty.record_all(entries);
    recording_counts_exactly(empty, entries);
    dimensions_are_counted_apart(config, entries, Dimension::Agent);
    entries_are_counted(entries, SwarmActivityKind::Note);
    assert forall|kind: SwarmActivityKind| #[trigger]
        sketch.kind_counts.contains_key(kind) <==> entries.filter(
            |e: EntryView| e.kind == kind,
        ).len() > 0 by {
        entries_are_counted(entries, kind);
    }
    assert forall|kind: SwarmActivityKind| #[trigger]
        sketch.kind_counts.contains_key(kind) implies sketch.kind_counts[kind] == clamped(
        entries.filter(|e: EntryView| e.kind == kind).len(),
    ) by {
        entries_are_counted(entries, kind);
        assert(count_of(sketch.kind_counts, kind) == sketch.kind_counts[kind]);
    }
}

/// Whether a list gives the hottest of some counts, the hotter ahead, as many as there is room
/// for, and leaves out none that is hotter than one that it gives.
pub open spec fn lists_counts(
    list: Seq<HotspotView>,
    counts: Map<Seq<char>, u64>,
    capacity: nat,
) -> bool {
    &&& list.len() == if counts.len() < capacity {
        counts.len()
    } else {
        capacity
    }
    &&& forall|i: int|
        0 <= i < list.len() ==> counts.contains_key((#[trigger] list[i]).key) && list[i].count
            == counts[list[i].key]
    &&& forall|i: int, j: int|
        0 <= i < j < list.len() ==> is_hotter(
            (#[trigger] list[i]).key,
            list[i].count,
            (#[trigger] list[j]).key,
            list[j].count,
        )
    &&& forall|i: int, key: Seq<char>|
        0 <= i < list.len() && #[trigger] counts.contains_key(key) && (forall|j: int|
            0 <= j < list.len() ==> (#[trigger] list[j]).key != key) ==> is_hotter(
            (#[trigger] list[i]).key,
            list[i].count,
            key,
            counts[key],
        )
}

/// The summary of a sketch gives its counters as they are, and in each dimension the hottest of
/// the keys that the sketch counts there.
pub proof fn snapshots_show_the_sketch(sketch: SketchView)
    requires
        sketch.agent_counts.dom().finite(),
        sketch.bead_counts.dom().finite(),
        sketch.verification_counts.dom().finite(),
        sketch.tool_counts.dom().finite(),
        sketch.provider_counts.dom().finite(),
        sketch.detail_counts.dom().finite(),
    ensures
        ({
            let summary = sketch.summary();
            let cap = sketch.config.max_hotspots as nat;
            &&& summary.schema == sketch.schema
            &&& summary.event_count == sketch.event_count
            &&& summary.redacted_entry_count == sketch.redacted_entry_count
            &&& summary.redacted_field_count == sketch.redacted_field_count
            &&& summary.kind_counts == sketch.kind_counts
            &&& lists_counts(summary.agent_hotspots, sketch.agent_counts, cap)
            &&& lists_counts(summary.bead_hotspots, sketch.bead_counts, cap)
            &&& lists_counts(summary.verification_hotspots, sketch.verification_counts, cap)
            &&& lists_counts(summary.tool_hotspots, sketch.tool_counts, cap)
            &&& lists_counts(summary.provider_hotspots, sketch.provider_counts, cap)
            &&& lists_counts(summary.detail_hotspots, sketch.detail_counts, cap)
        }),
{
    let cap = sketch.config.max_hotspots as nat;
    top_lists_the_hottest(sketch.agent_counts, cap);
    top_lists_the_hottest(sketch.bead_counts, cap);
    top_lists_the_hottest(sketch.verification_counts, cap);
    top_lists_the_hottest(sketch.tool_counts, cap);
    top_lists_the_hottest(sketch.provider_counts, cap);
    top_lists_the_hottest(sketch.detail_counts, cap);
}

/// The sum of two counts, up to the greatest count.
pub open spec fn sum_up(a: u64, b: u64) -> u64 {
    clamped((a + b) as nat)
}

/// Whether some counts are the sums of two others: of every key that either has, the sum of
/// both, up to the greatest count.
pub open spec fn sums_up<A>(all: Map<A, u64>, a: Map<A, u64>, b: Map<A, u64>) -> bool {
    &&& forall|key: A| #[trigger]
        all.contains_key(key) <==> a.contains_key(key) || b.contains_key(key)
    &&& forall|key: A| #[trigger]
        all.contains_key(key) ==> all[key] == if !b.contains_key(key) {
            a[key]
        } else if !a.contains_key(key) {
            b[key]
        } else {
            sum_up(a[key], b[key])
        }
}

/// Whether counts that were merged are the hottest of the sums of both.
pub open spec fn is_merged(
    merged: Map<Seq<char>, u64>,
    a: Map<Seq<char>, u64>,
    b: Map<Seq<char>, u64>,
    capacity: nat,
) -> bool {
    exists|all: Map<Seq<char>, u64>| #[trigger]
        sums_up(all, a, b) && keeps_the_hottest(all, merged, capacity)
}

/// Counts of a dimension are merged into the hottest of their sums.
proof fn counts_are_merged(a: Map<Seq<char>, u64>, b: Map<Seq<char>, u64>, capacity: nat)
    requires
        a.dom().finite(),
        b.dom().finite(),
    ensures
        is_merged(spots_merged(a, b, capacity), a, b, capacity),
{
    let all = Map::new(
        |key: Seq<char>| a.contains_key(key) || b.contains_key(key),
        |key: Seq<char>|
            if !b.contains_key(key) {
                a[key]
            } else if !a.contains_key(key) {
                b[key]
            } else {
                sum_up(a[key], b[key])
            },
    );
    assert(all.dom() =~= a.dom().union(b.dom()));
    assert(sums_up(all, a, b));
    merging_keeps_the_hottest(a, b, all, capacity);
}

/// A sketch into which another is merged keeps its schema and its own capacities. Its counters
/// and the counts of each kind are the sums of both, and in each dimension it keeps as many keys
/// as there is room for, the hottest of both, each with the sum of its counts.
pub proof fn merging_sums_up_and_keeps_the_hottest(a: SketchView, b: SketchView)
    requires
        a.agent_counts.dom().finite(),
        a.bead_counts.dom().finite(),
        a.verification_counts.dom().finite(),
        a.tool_counts.dom().finite(),
        a.provider_counts.dom().finite(),
        a.detail_counts.dom().finite(),
        b.agent_counts.dom().finite(),
        b.bead_counts.dom().finite(),
        b.verification_counts.dom().finite(),
        b.tool_counts.dom().finite(),
        b.provider_counts.dom().finite(),
        b.detail_counts.dom().finite(),
    ensures
        ({
            let merged = a.merge(b);
            let cap = a.config.max_hotspots as nat;
            &&& merged.schema == a.schema
            &&& merged.config == a.config
            &&& merged.event_count == sum_up(a.event_count, b.event_count)
            &&& merged.redacted_entry_count == sum_up(
                a.redacted_entry_count,
                b.redacted_entry_count,
            )
            &&& merged.redacted_field_count == sum_up(
                a.redacted_field_count,
                b.redacted_field_count,
            )
            &&& sums_up(merged.kind_counts, a.kind_counts, b.kind_counts)
            &&& is_merged(merged.agent_counts, a.agent_counts, b.agent_counts, cap)
            &&& is_merged(merged.bead_counts, a.bead_counts, b.bead_counts, cap)
            &&& is_merged(merged.verification_counts, a.verification_counts, b.verification_counts, cap)
            &&& is_merged(merged.tool_counts, a.tool_counts, b.tool_counts, cap)
            &&& is_merged(merged.provider_counts, a.provider_counts, b.provider_counts, cap)
            &&& is_merged(merged.detail_counts, a.detail_counts, b.detail_counts, cap)
            &&& merged.latency_ms.sample_count == sum_up(
                a.latency_ms.sample_count,
                b.latency_ms.sample_count,
            )
        }),
{
    let cap = a.config.max_hotspots as nat;
    counts_are_merged(a.agent_counts, b.agent_counts, cap);
    counts_are_merged(a.bead_counts, b.bead_counts, cap);
    counts_are_merged(a.verification_counts, b.verification_counts, cap);
    counts_are_merged(a.tool_counts, b.tool_counts, cap);
    counts_are_merged(a.provider_counts, b.provider_counts, cap);
    counts_are_merged(a.detail_counts, b.detail_counts, cap);
}

/// Whether a detail is a latency, by its name in whatever case.
pub open spec fn is_latency(name: Seq<char>) -> bool {
    ||| spells(name, "duration_ms"@)
    ||| spells(name, "elapsed_ms"@)
    ||| spells(name, "latency_ms"@)
}

/// The number of details that are a latency of the given milliseconds, over all details of all
/// entries.
pub open spec fn latencies_of(entries: Seq<EntryView>, sample_ms: u64) -> nat {
    Set::new(
        |p: (int, Seq<char>)|
            0 <= p.0 < entries.len() && entries[p.0].details.contains_key(p.1) && is_latency(p.1)
                && latency_of(entries[p.0].details[p.1]) == Some(sample_ms),
    ).len()
}

/// Whether a detail is a latency of the given milliseconds.
spec fn measures(sample_ms: u64) -> spec_fn(Seq<char>, Seq<char>) -> bool {
    |name: Seq<char>, value: Seq<char>|
        latency_from_detail(name, value) == Some(sample_ms)
}

/// Latencies of details are as many as there are details that give them.
proof fn listed_latencies_are_counted(details: Seq<(Seq<char>, Seq<char>)>, sample_ms: u64)
    ensures
        detail_places(details, measures(sample_ms)).finite(),
        latencies_from_details(details).to_multiset().count(sample_ms) == detail_places(
            details,
            measures(sample_ms),
        ).len(),
    decreases details.len(),
{
    broadcast use vstd::seq_lib::group_to_multiset_ensures;

    let meets = measures(sample_ms);
    let none = Seq::<u64>::empty();
    if details.len() == 0 {
        assert(detail_places(details, meets) =~= Set::empty());
        assert(latencies_from_details(details) =~= none);
        assert(none.to_multiset().count(sample_ms) == 0);
    } else {
        let init = details.drop_last();
        let (name, value) = details.last();
        let at = details.len() - 1;
        listed_latencies_are_counted(init, sample_ms);
        assert forall|i: int| 0 <= i < at implies #[trigger] init[i] == details[i] by {}
        if meets(name, value) {
            assert(detail_places(details, meets) =~= detail_places(init, meets).insert(at));
        } else {
            assert(detail_places(details, meets) =~= detail_places(init, meets));
        }
    }
}

/// The latencies of entries are as many as there are details that give them.
pub proof fn latencies_come_from_details(entries: Seq<EntryView>, sample_ms: u64)
    requires
        forall|i: int| 0 <= i < entries.len() ==> (#[trigger] entries[i]).details.dom().finite(),
    ensures
        all_latencies(entries).to_multiset().count(sample_ms) == latencies_of(entries, sample_ms),
{
    latencies_are_counted(entries, sample_ms);
    assert forall|name: Seq<char>, value: Seq<char>| #[trigger] measures(sample_ms)(name, value)
        == (is_latency(name) && latency_of(value) == Some(sample_ms)) by {
        reveal_strlit("duration_ms");
        reveal_strlit("elapsed_ms");
        reveal_strlit("latency_ms");
        names_are_spelled(name, "duration_ms"@);
        names_are_spelled(name, "elapsed_ms"@);
        names_are_spelled(name, "latency_ms"@);
    }
    assert(named_places(entries, measures(sample_ms)) =~= Set::new(
        |p: (int, Seq<char>)|
            0 <= p.0 < entries.len() && entries[p.0].details.contains_key(p.1) && is_latency(p.1)
                && latency_of(entries[p.0].details[p.1]) == Some(sample_ms),
    ));
}

/// The latencies of entries are counted over their details.
proof fn latencies_are_counted(entries: Seq<EntryView>, sample_ms: u64)
    requires
        forall|i: int| 0 <= i < entries.len() ==> (#[trigger] entries[i]).details.dom().finite(),
    ensures
        named_places(entries, measures(sample_ms)).finite(),
        all_latencies(entries).to_multiset().count(sample_ms) == named_places(
            entries,
            measures(sample_ms),
        ).len(),
    decreases entries.len(),
{
    broadcast use vstd::seq_lib::group_to_multiset_ensures;

    let none = Seq::<u64>::empty();
    if entries.len() == 0 {
        assert(named_places(entries, measures(sample_ms)) =~= Set::empty());
        assert(all_latencies(entries) =~= none);
        assert(none.to_multiset().count(sample_ms) == 0);
    } else {
        let init = entries.drop_last();
        let at = entries.len() - 1;
        let pairs = ascending::<String, Seq<char>>(entries.last().details);
        assert(entries[at].details.dom().finite());
        assert forall|i: int| 0 <= i < init.len() implies (
        #[trigger] init[i]).details.dom().finite() by {
            assert(init[i] == entries[i]);
        }
        latencies_are_counted(init, sample_ms);
        listed_latencies_are_counted(pairs, sample_ms);
        places_add_up(entries, measures(sample_ms));
        vstd::seq_lib::lemma_multiset_commutative(
            all_latencies(init),
            latencies_from_details(pairs),
        );
    }
}

/// The summary of entries measures all their latencies, be it that of a ledger or that of a
/// sketch, where there is room for samples: it counts them, and no percentile that it gives is
/// off its rank among them by more than the bound that it gives. Without room, or without
/// latencies, it gives none.
pub proof fn summaries_measure_all_latencies(
    entries: Seq<EntryView>,
    config: SwarmActivitySummaryConfig,
    sorted: Seq<u64>,
    percentile: u8,
)
    requires
        forall|i: int, j: int| 0 <= i < j < sorted.len() ==> sorted[i] <= sorted[j],
        sorted.to_multiset() == all_latencies(entries).to_multiset(),
        sorted.len() <= u64::MAX,
        percentile == 50 || percentile == 95 || percentile == 99,
    ensures
        SketchView::empty(config).record_all(entries).summary().latency_ms == summarized(
            entries,
            config,
        ).latency_ms,
        summarized(entries, config).latency_ms is Some <==> config.max_latency_samples > 0
            && sorted.len() > 0,
        summarized(entries, config).latency_ms matches Some(latency) ==> {
            &&& latency.sample_count == sorted.len()
            &&& 1 <= latency.retained_samples <= config.max_latency_samples
            &&& is_within_bound(latency, percentile, sorted)
        },
{
    broadcast use vstd::seq_lib::group_to_multiset_ensures;

    let samples = all_latencies(entries);
    let capacity = config.max_latency_samples;
    let sketch = LatencyView::empty(capacity).record_all(samples);
    dimensions_are_counted_apart(config, entries, Dimension::Agent);
    assert(sorted.to_multiset().len() == sorted.len());
    assert(samples.to_multiset().len() == samples.len());
    if capacity == 0 {
        nothing_is_retained_without_room(samples);
    } else {
        recorded_sketch_is_of_samples(capacity, samples);
        summary_figures_ascend(sketch);
        capacity_is_kept(capacity, samples);
        if sorted.len() > 0 {
            percentiles_are_within_bound(sketch, samples, sorted, percentile);
        } else {
            assert forall|k: u64| #[trigger] sketch.buckets.contains_key(k) implies false by {
                crate::counts::count_within_weight(sketch.buckets, k);
            }
            assert(sketch.buckets.dom() =~= Set::empty());
        }
    }
}

/// Recording samples leaves the capacity of a sketch as it is.
proof fn capacity_is_kept(capacity: usize, samples: Seq<u64>)
    ensures
        LatencyView::empty(capacity).record_all(samples).capacity == capacity,
    decreases samples.len(),
{
    if samples.len() > 0 {
        capacity_is_kept(capacity, samples.drop_last());
    }
}

/// Without room no sample is retained.
proof fn nothing_is_retained_without_room(samples: Seq<u64>)
    ensures
        LatencyView::empty(0).record_all(samples).buckets == Map::<u64, u64>::empty(),
        LatencyView::empty(0).record_all(samples).capacity == 0,
    decreases samples.len(),
{
    if samples.len() > 0 {
        nothing_is_retained_without_room(samples.drop_last());
    }
}

} // verus!
