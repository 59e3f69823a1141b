//! What holds of every entry as a JSON value.

use vstd::prelude::*;

use crate::entry::{EntryView, IdsView, SwarmActivityKind};
use crate::json::{within_depth, JsonView};
use crate::record::{present, record_gives_back};
use crate::redaction::RedactionView;
use crate::row::{
    details_json, details_of, entry_fields, entry_json, entry_of, ids_fields, ids_json, ids_of,
    kind_name, kind_named, named_texts, number_json, redaction_fields, redaction_json,
    redaction_of_json, text_json, texts_of, ROW_DEPTH,
};
use crate::sorted_map::{ascending, ascending_exists};

verus! {

/// A category is the one of its name.
pub proof fn kind_of_its_name(kind: SwarmActivityKind)
    ensures
        kind_named(kind_name(kind)) == Some(kind),
{
    reveal_strlit("bead_status");
    reveal_strlit("agent_mail");
    reveal_strlit("file_reservation");
    reveal_strlit("rch_job");
    reveal_strlit("verification");
    reveal_strlit("git_commit");
    reveal_strlit("recovery");
    reveal_strlit("note");
    assert("bead_status"@.len() == 11 && "agent_mail"@.len() == 10 && "file_reservation"@.len()
        == 16 && "rch_job"@.len() == 7 && "verification"@.len() == 12 && "git_commit"@.len() == 10
        && "recovery"@.len() == 8 && "note"@.len() == 4);
    assert("agent_mail"@[0] != "git_commit"@[0]);
}

/// The values of a record lie one level below it.
proof fn record_within_depth(
    names: Seq<Seq<char>>,
    values: Seq<Option<JsonView>>,
    depth: nat,
)
    requires
        names.len() == values.len(),
        forall|i: int|
            0 <= i < values.len() && (#[trigger] values[i]) is Some ==> within_depth(
                values[i]->0,
                depth,
            ),
    ensures
        forall|i: int|
            0 <= i < present(names, values).len() ==> within_depth(
                (#[trigger] present(names, values)[i]).1,
                depth,
            ),
        within_depth(JsonView::Object(present(names, values)), depth + 1),
    decreases names.len(),
{
    if names.len() > 0 {
        record_within_depth(names.drop_last(), values.drop_last(), depth);
    }
}

/// The names of the identifiers differ.
proof fn ids_fields_differ()
    ensures
        ids_fields().no_duplicates(),
{
    reveal_strlit("correlation_id");
    reveal_strlit("bead_id");
    reveal_strlit("mail_thread_id");
    reveal_strlit("mail_message_id");
    reveal_strlit("agent_name");
    reveal_strlit("file_reservation_id");
    reveal_strlit("rch_job_id");
    reveal_strlit("verification_id");
    reveal_strlit("git_sha");
    let names = ids_fields();
    assert(names[0][0] == 'c' && names[1][0] == 'b' && names[2][0] == 'm' && names[3][0] == 'm'
        && names[4][0] == 'a' && names[5][0] == 'f' && names[6][0] == 'r' && names[7][0] == 'v'
        && names[8][0] == 'g');
    assert(names[2].len() != names[3].len());
}

/// Identifiers are those of their JSON object.
pub proof fn ids_give_back(ids: IdsView)
    ensures
        ids_of(Some(ids_json(ids))) == Some(ids),
        within_depth(ids_json(ids), 1),
{
    let names = ids_fields();
    let values = seq![
        Some(JsonView::Text(ids.correlation_id)),
        text_json(ids.bead_id),
        text_json(ids.mail_thread_id),
        number_json(ids.mail_message_id),
        text_json(ids.agent_name),
        number_json(ids.file_reservation_id),
        text_json(ids.rch_job_id),
        text_json(ids.verification_id),
        text_json(ids.git_sha),
    ];
    ids_fields_differ();
    assert forall|i: int| 0 <= i < names.len() implies crate::record::occurrences(
        present(names, values),
        #[trigger] names[i],
    ) <= 1 && crate::record::member_named(present(names, values), names[i]) == values[i] by {
        record_gives_back(names, values, i);
    }
    record_within_depth(names, values, 0);
}

/// Details are those of their JSON object.
pub proof fn details_give_back(details: Map<Seq<char>, Seq<char>>)
    requires
        details.dom().finite(),
    ensures
        details_of(details_json(details)) == Some(details),
        details_json(details) is Some ==> within_depth(details_json(details)->0, 1),
{
    reveal_with_fuel(within_depth, 2);
    let pairs = ascending::<String, Seq<char>>(details);
    ascending_exists::<String, Seq<char>>(details);
    if let Some(JsonView::Object(members)) = details_json(details) {
        assert(named_texts(members) =~= pairs);
    }
}

/// A redaction is that of its JSON object.
pub proof fn redaction_gives_back(redaction: RedactionView)
    ensures
        redaction_of_json(Some(redaction_json(redaction))) == Some(redaction),
        within_depth(redaction_json(redaction), 2),
{
    reveal_strlit("redacted_count");
    reveal_strlit("redacted_fields");
    let names = redaction_fields();
    let texts = redaction.redacted_fields.map_values(|name: Seq<char>| JsonView::Text(name));
    let list = if redaction.redacted_fields.len() == 0 {
        None
    } else {
        Some(JsonView::List(texts))
    };
    let values = seq![Some(JsonView::Number(redaction.redacted_count as u64)), list];
    assert(names.no_duplicates()) by {
        assert(names[0].len() != names[1].len());
    }
    record_gives_back(names, values, 0);
    record_gives_back(names, values, 1);
    assert(texts_of(list) == Some(redaction.redacted_fields)) by {}
    reveal_with_fuel(within_depth, 2);
    record_within_depth(names, values, 1);
}

/// The names of the fields of an entry differ.
proof fn entry_fields_differ()
    ensures
        entry_fields().no_duplicates(),
{
    reveal_strlit("schema");
    reveal_strlit("sequence");
    reveal_strlit("timestamp_ms");
    reveal_strlit("kind");
    reveal_strlit("summary");
    reveal_strlit("ids");
    reveal_strlit("details");
    reveal_strlit("redaction");
    let names = entry_fields();
    assert(names[0].len() == 6 && names[1].len() == 8 && names[2].len() == 12 && names[3].len() == 4
        && names[4].len() == 7 && names[5].len() == 3 && names[6].len() == 7 && names[7].len()
        == 9);
    assert(names[4][0] != names[6][0]);
}

/// An entry is that of its JSON object.
pub proof fn entry_gives_back(entry: EntryView)
    requires
        entry.details.dom().finite(),
    ensures
        entry_of(entry_json(entry)) == Some(entry),
        within_depth(entry_json(entry), ROW_DEPTH as nat),
{
    let names = entry_fields();
    let values = seq![
        Some(JsonView::Text(entry.schema)),
        Some(JsonView::Number(entry.sequence)),
        Some(JsonView::Number(entry.timestamp_ms)),
        Some(JsonView::Text(kind_name(entry.kind))),
        Some(JsonView::Text(entry.summary)),
        Some(ids_json(entry.ids)),
        details_json(entry.details),
        Some(redaction_json(entry.redaction)),
    ];
    entry_fields_differ();
    kind_of_its_name(entry.kind);
    ids_give_back(entry.ids);
    details_give_back(entry.details);
    redaction_gives_back(entry.redaction);
    assert forall|i: int| 0 <= i < names.len() implies crate::record::occurrences(
        present(names, values),
        #[trigger] names[i],
    ) <= 1 && crate::record::member_named(present(names, values), names[i]) == values[i] by {
        record_gives_back(names, values, i);
    }
    assert forall|i: int|
        0 <= i < values.len() && (#[trigger] values[i]) is Some implies within_depth(
        values[i]->0,
        2,
    ) by {
        deeper(ids_json(entry.ids), 1);
        if let Some(details) = details_json(entry.details) {
            deeper(details, 1);
        }
    }
    record_within_depth(names, values, 2);
}

/// What lies within a depth lies within a greater one.
proof fn deeper(value: JsonView, depth: nat)
    requires
        within_depth(value, depth),
    ensures
        within_depth(value, depth + 1),
    decreases depth,
{
    match value {
        JsonView::List(items) => {
            assert forall|i: int| 0 <= i < items.len() implies within_depth(
                #[trigger] items[i],
                depth,
            ) by {
                deeper(items[i], (depth - 1) as nat);
            }
        },
        JsonView::Object(members) => {
            assert forall|i: int| 0 <= i < members.len() implies within_depth(
                (#[trigger] members[i]).1,
                depth,
            ) by {
                deeper(members[i].1, (depth - 1) as nat);
            }
        },
        _ => {},
    }
}

} // verus!
