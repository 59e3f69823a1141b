//! Ledger entries as JSON values.

use vstd::prelude::*;

use crate::entry::{
    text_option, DetailFields, EntryView, IdsView, SwarmActivityIds, SwarmActivityKind,
    SwarmActivityLedgerEntry,
};
use crate::json::{item_views, list_model, member_views, object_model, Json, JsonView};
use crate::record::{
    can_be_record, field, field_at, field_view, is_record, json_option, name_views, present,
    record_json,
};
use crate::redaction::{RedactionView, SwarmActivityRedaction};
use crate::sorted_map::{ascending, map_of, SortedMap};
use crate::text::same_text;

verus! {

/// The number of levels of arrays and objects in the JSON value of an entry.
pub const ROW_DEPTH: u8 = 3;

/// The names of the fields of an entry.
pub open spec fn entry_fields() -> Seq<Seq<char>> {
    seq![
        "schema"@,
        "sequence"@,
        "timestamp_ms"@,
        "kind"@,
        "summary"@,
        "ids"@,
        "details"@,
        "redaction"@,
    ]
}

/// The names of the identifiers of an entry.
pub open spec fn ids_fields() -> Seq<Seq<char>> {
    seq![
        "correlation_id"@,
        "bead_id"@,
        "mail_thread_id"@,
        "mail_message_id"@,
        "agent_name"@,
        "file_reservation_id"@,
        "rch_job_id"@,
        "verification_id"@,
        "git_sha"@,
    ]
}

/// The names of the fields of a redaction.
pub open spec fn redaction_fields() -> Seq<Seq<char>> {
    seq!["redacted_count"@, "redacted_fields"@]
}

/// The name of a category.
pub open spec fn kind_name(kind: SwarmActivityKind) -> Seq<char> {
    match kind {
        SwarmActivityKind::BeadStatus => "bead_status"@,
        SwarmActivityKind::AgentMail => "agent_mail"@,
        SwarmActivityKind::FileReservation => "file_reservation"@,
        SwarmActivityKind::RchJob => "rch_job"@,
        SwarmActivityKind::Verification => "verification"@,
        SwarmActivityKind::GitCommit => "git_commit"@,
        SwarmActivityKind::Recovery => "recovery"@,
        SwarmActivityKind::Note => "note"@,
    }
}

/// The string of an optional text.
pub open spec fn text_json(value: Option<Seq<char>>) -> Option<JsonView> {
    match value {
        Some(text) => Some(JsonView::Text(text)),
        None => None,
    }
}

/// The number of an optional integer.
pub open spec fn number_json(value: Option<u64>) -> Option<JsonView> {
    match value {
        Some(n) => Some(JsonView::Number(n)),
        None => None,
    }
}

/// The JSON object of the identifiers of an entry. Unknown ones are left out.
pub open spec fn ids_json(ids: IdsView) -> JsonView {
    JsonView::Object(
        present(
            ids_fields(),
            seq![
                Some(JsonView::Text(ids.correlation_id)),
                text_json(ids.bead_id),
                text_json(ids.mail_thread_id),
                number_json(ids.mail_message_id),
                text_json(ids.agent_name),
                number_json(ids.file_reservation_id),
                text_json(ids.rch_job_id),
                text_json(ids.verification_id),
                text_json(ids.git_sha),
            ],
        ),
    )
}

/// The JSON object of the details of an entry, their names ascending. No details are left out.
pub open spec fn details_json(details: Map<Seq<char>, Seq<char>>) -> Option<JsonView> {
    if details == Map::<Seq<char>, Seq<char>>::empty() {
        None
    } else {
        Some(
            JsonView::Object(
                ascending::<String, Seq<char>>(details).map_values(
                    |p: (Seq<char>, Seq<char>)| (p.0, JsonView::Text(p.1)),
                ),
            ),
        )
    }
}

/// The JSON object of a redaction. The names are left out where there are none.
pub open spec fn redaction_json(redaction: RedactionView) -> JsonView {
    JsonView::Object(
        present(
            redaction_fields(),
            seq![
                Some(JsonView::Number(redaction.redacted_count as u64)),
                if redaction.redacted_fields.len() == 0 {
                    None
                } else {
                    Some(
                        JsonView::List(
                            redaction.redacted_fields.map_values(
                                |name: Seq<char>| JsonView::Text(name),
                            ),
                        ),
                    )
                },
            ],
        ),
    )
}

/// The JSON object of an entry.
pub open spec fn entry_json(entry: EntryView) -> JsonView {
    JsonView::Object(
        present(
            entry_fields(),
            seq![
                Some(JsonView::Text(entry.schema)),
                Some(JsonView::Number(entry.sequence)),
                Some(JsonView::Number(entry.timestamp_ms)),
                Some(JsonView::Text(kind_name(entry.kind))),
                Some(JsonView::Text(entry.summary)),
                Some(ids_json(entry.ids)),
                details_json(entry.details),
                Some(redaction_json(entry.redaction)),
            ],
        ),
    )
}

/// The category of a name.
pub open spec fn kind_named(name: Seq<char>) -> Option<SwarmActivityKind> {
    if name == "bead_status"@ {
        Some(SwarmActivityKind::BeadStatus)
    } else if name == "agent_mail"@ {
        Some(SwarmActivityKind::AgentMail)
    } else if name == "file_reservation"@ {
        Some(SwarmActivityKind::FileReservation)
    } else if name == "rch_job"@ {
        Some(SwarmActivityKind::RchJob)
    } else if name == "verification"@ {
        Some(SwarmActivityKind::Verification)
    } else if name == "git_commit"@ {
        Some(SwarmActivityKind::GitCommit)
    } else if name == "recovery"@ {
        Some(SwarmActivityKind::Recovery)
    } else if name == "note"@ {
        Some(SwarmActivityKind::Note)
    } else {
        None
    }
}

/// The category that a value stands for: its name, or an object in which the name has `null`.
pub open spec fn kind_of(value: Option<JsonView>) -> Option<SwarmActivityKind> {
    match value {
        Some(JsonView::Text(name)) => kind_named(name),
        Some(JsonView::Object(members)) => if members.len() == 1 && members[0].1 is Null {
            kind_named(members[0].0)
        } else {
            None
        },
        _ => None,
    }
}

/// The text of a field that must be a string.
pub open spec fn text_of_json(value: Option<JsonView>) -> Option<Seq<char>> {
    match value {
        Some(JsonView::Text(text)) => Some(text),
        _ => None,
    }
}

/// The integer of a field that must be a number.
pub open spec fn number_of_json(value: Option<JsonView>) -> Option<u64> {
    match value {
        Some(JsonView::Number(n)) => Some(n),
        _ => None,
    }
}

/// The text of a field that may be missing or `null`.
pub open spec fn optional_text_of(value: Option<JsonView>) -> Option<Option<Seq<char>>> {
    match value {
        None => Some(None),
        Some(JsonView::Null) => Some(None),
        Some(JsonView::Text(text)) => Some(Some(text)),
        _ => None,
    }
}

/// The integer of a field that may be missing or `null`.
pub open spec fn optional_number_of(value: Option<JsonView>) -> Option<Option<u64>> {
    match value {
        None => Some(None),
        Some(JsonView::Null) => Some(None),
        Some(JsonView::Number(n)) => Some(Some(n)),
        _ => None,
    }
}

/// The text of an identifier that must be a string; empty where it is missing.
pub open spec fn id_text_of(value: Option<JsonView>) -> Option<Seq<char>> {
    match value {
        None => Some(Seq::empty()),
        Some(JsonView::Text(text)) => Some(text),
        _ => None,
    }
}

/// The identifiers that a value stands for; none where the field is missing.
pub open spec fn ids_of(value: Option<JsonView>) -> Option<IdsView> {
    match value {
        None => Some(IdsView::only(Seq::empty())),
        Some(json) => if !is_record(json, ids_fields()) {
            None
        } else {
            match (
                id_text_of(field_at(json, "correlation_id"@, 0)),
                optional_text_of(field_at(json, "bead_id"@, 1)),
                optional_text_of(field_at(json, "mail_thread_id"@, 2)),
                optional_number_of(field_at(json, "mail_message_id"@, 3)),
                optional_text_of(field_at(json, "agent_name"@, 4)),
                optional_number_of(field_at(json, "file_reservation_id"@, 5)),
                optional_text_of(field_at(json, "rch_job_id"@, 6)),
                optional_text_of(field_at(json, "verification_id"@, 7)),
                optional_text_of(field_at(json, "git_sha"@, 8)),
            ) {
                (
                    Some(correlation_id),
                    Some(bead_id),
                    Some(mail_thread_id),
                    Some(mail_message_id),
                    Some(agent_name),
                    Some(file_reservation_id),
                    Some(rch_job_id),
                    Some(verification_id),
                    Some(git_sha),
                ) => Some(
                    IdsView {
                        correlation_id,
                        bead_id,
                        mail_thread_id,
                        mail_message_id,
                        agent_name,
                        file_reservation_id,
                        rch_job_id,
                        verification_id,
                        git_sha,
                    },
                ),
                _ => None,
            }
        },
    }
}

/// Whether all members are strings.
pub open spec fn all_texts(members: Seq<(Seq<char>, JsonView)>) -> bool {
    forall|i: int| 0 <= i < members.len() ==> (#[trigger] members[i]).1 is Text
}

/// The names and texts of members that are all strings.
pub open spec fn named_texts(members: Seq<(Seq<char>, JsonView)>) -> Seq<(Seq<char>, Seq<char>)> {
    members.map_values(|m: (Seq<char>, JsonView)| (m.0, m.1->Text_0))
}

/// The details that a value stands for; none where the field is missing. Of a repeated name the
/// last text holds.
pub open spec fn details_of(value: Option<JsonView>) -> Option<Map<Seq<char>, Seq<char>>> {
    match value {
        None => Some(Map::empty()),
        Some(JsonView::Object(members)) => if all_texts(members) {
            Some(map_of(named_texts(members)))
        } else {
            None
        },
        _ => None,
    }
}

/// The texts of a field that may be missing and must be an array of strings.
pub open spec fn texts_of(value: Option<JsonView>) -> Option<Seq<Seq<char>>> {
    match value {
        None => Some(Seq::empty()),
        Some(JsonView::List(items)) => if forall|i: int|
            0 <= i < items.len() ==> (#[trigger] items[i]) is Text {
            Some(items.map_values(|item: JsonView| item->Text_0))
        } else {
            None
        },
        _ => None,
    }
}

/// The redaction that a value stands for; nothing redacted where the field is missing.
pub open spec fn redaction_of_json(value: Option<JsonView>) -> Option<RedactionView> {
    match value {
        None => Some(RedactionView::none()),
        Some(json) => if !is_record(json, redaction_fields()) {
            None
        } else {
            match (
                number_of_json(field_at(json, "redacted_count"@, 0)),
                texts_of(field_at(json, "redacted_fields"@, 1)),
            ) {
                (Some(count), Some(redacted_fields)) => if count <= usize::MAX {
                    Some(RedactionView { redacted_count: count as usize, redacted_fields })
                } else {
                    None
                },
                _ => None,
            }
        },
    }
}

/// The entry that a value stands for.
pub open spec fn entry_of(json: JsonView) -> Option<EntryView> {
    if !is_record(json, entry_fields()) {
        None
    } else {
        match (
            text_of_json(field_at(json, "schema"@, 0)),
            number_of_json(field_at(json, "sequence"@, 1)),
            number_of_json(field_at(json, "timestamp_ms"@, 2)),
            kind_of(field_at(json, "kind"@, 3)),
            text_of_json(field_at(json, "summary"@, 4)),
            ids_of(field_at(json, "ids"@, 5)),
            details_of(field_at(json, "details"@, 6)),
            redaction_of_json(field_at(json, "redaction"@, 7)),
        ) {
            (
                Some(schema),
                Some(sequence),
                Some(timestamp_ms),
                Some(kind),
                Some(summary),
                Some(ids),
                Some(details),
                Some(redaction),
            ) => Some(
                EntryView {
                    schema,
                    sequence,
                    timestamp_ms,
                    kind,
                    summary,
                    ids,
                    details,
                    redaction,
                },
            ),
            _ => None,
        }
    }
}

/// The string of an optional text.
fn optional_text_json(value: &Option<String>) -> (r: Option<Json>)
    ensures
        json_option(r) == text_json(text_option(*value)),
{
    match value {
        Some(text) => Some(Json::Text(text.as_str().to_owned())),
        None => None,
    }
}

/// The number of an optional integer.
fn optional_number_json(value: Option<u64>) -> (r: Option<Json>)
    ensures
        json_option(r) == number_json(value),
{
    match value {
        Some(n) => Some(Json::Number(n)),
        None => None,
    }
}

/// The name of a category.
pub fn name_of_kind(kind: SwarmActivityKind) -> (r: &'static str)
    ensures
        r@ == kind_name(kind),
{
    match kind {
        SwarmActivityKind::BeadStatus => "bead_status",
        SwarmActivityKind::AgentMail => "agent_mail",
        SwarmActivityKind::FileReservation => "file_reservation",
        SwarmActivityKind::RchJob => "rch_job",
        SwarmActivityKind::Verification => "verification",
        SwarmActivityKind::GitCommit => "git_commit",
        SwarmActivityKind::Recovery => "recovery",
        SwarmActivityKind::Note => "note",
    }
}

/// The JSON object of the identifiers of an entry.
pub fn ids_to_json(ids: &SwarmActivityIds) -> (r: Json)
    ensures
        r@ == ids_json(ids@),
{
    let names: [&str; 9] = [
        "correlation_id",
        "bead_id",
        "mail_thread_id",
        "mail_message_id",
        "agent_name",
        "file_reservation_id",
        "rch_job_id",
        "verification_id",
        "git_sha",
    ];
    let values: Vec<Option<Json>> = vec![
        Some(Json::Text(ids.correlation_id.as_str().to_owned())),
        optional_text_json(&ids.bead_id),
        optional_text_json(&ids.mail_thread_id),
        optional_number_json(ids.mail_message_id),
        optional_text_json(&ids.agent_name),
        optional_number_json(ids.file_reservation_id),
        optional_text_json(&ids.rch_job_id),
        optional_text_json(&ids.verification_id),
        optional_text_json(&ids.git_sha),
    ];
    proof {
        assert(name_views(names@) =~= ids_fields());
        assert(values@.map_values(|v: Option<Json>| json_option(v)) =~= seq![
            Some(JsonView::Text(ids@.correlation_id)),
            text_json(ids@.bead_id),
            text_json(ids@.mail_thread_id),
            number_json(ids@.mail_message_id),
            text_json(ids@.agent_name),
            number_json(ids@.file_reservation_id),
            text_json(ids@.rch_job_id),
            text_json(ids@.verification_id),
            text_json(ids@.git_sha),
        ]);
    }
    record_json(&names, values)
}

/// The JSON object of the details of an entry, where there are any.
pub fn details_to_json(details: &SortedMap<String, String>) -> (r: Option<Json>)
    ensures
        json_option(r) == details_json(details@),
{
    if details.is_empty() {
        return None;
    }
    let n: usize = details.len();
    let ghost pairs = details.pairs();
    let ghost all = pairs.map_values(|p: (Seq<char>, Seq<char>)| (p.0, JsonView::Text(p.1)));
    let mut members: Vec<(String, Json)> = Vec::new();
    let mut i: usize = 0;
    while i < n
        invariant
            i <= n == pairs.len(),
            pairs == details.pairs(),
            all == pairs.map_values(|p: (Seq<char>, Seq<char>)| (p.0, JsonView::Text(p.1))),
            member_views(members@) == all.take(i as int),
        decreases n - i,
    {
        let ghost before = members@;
        members.push(
            (
                details.key_at(i).as_str().to_owned(),
                Json::Text(details.value_at(i).as_str().to_owned()),
            ),
        );
        proof {
            assert(member_views(members@) =~= member_views(before).push(all[i as int]));
        }
        i += 1;
    }
    proof {
        assert(all.take(n as int) =~= all);
        object_model(members);
    }
    Some(Json::Object(members))
}

/// The array of a list of texts.
fn texts_to_json(texts: &Vec<String>) -> (r: Json)
    ensures
        r@ == JsonView::List(
            texts@.map_values(|t: String| t@).map_values(|t: Seq<char>| JsonView::Text(t)),
        ),
{
    let mut items: Vec<Json> = Vec::new();
    let ghost all = texts@.map_values(|t: String| t@).map_values(
        |t: Seq<char>| JsonView::Text(t),
    );
    let mut i: usize = 0;
    while i < texts.len()
        invariant
            i <= texts@.len(),
            all == texts@.map_values(|t: String| t@).map_values(|t: Seq<char>| JsonView::Text(t)),
            item_views(items@) == all.take(i as int),
        decreases texts@.len() - i,
    {
        let ghost before = items@;
        items.push(Json::Text(texts[i].as_str().to_owned()));
        proof {
            assert(item_views(items@) =~= item_views(before).push(all[i as int]));
        }
        i += 1;
    }
    proof {
        assert(all.take(texts@.len() as int) =~= all);
        list_model(items);
    }
    Json::List(items)
}

/// The JSON object of a redaction.
pub fn redaction_to_json(redaction: &SwarmActivityRedaction) -> (r: Json)
    ensures
        r@ == redaction_json(redaction@),
{
    let names: [&str; 2] = ["redacted_count", "redacted_fields"];
    let fields = if redaction.redacted_fields.len() == 0 {
        None
    } else {
        Some(texts_to_json(&redaction.redacted_fields))
    };
    let values: Vec<Option<Json>> = vec![
        Some(Json::Number(redaction.redacted_count as u64)),
        fields,
    ];
    proof {
        assert(name_views(names@) =~= redaction_fields());
        assert(values@.map_values(|v: Option<Json>| json_option(v)) =~= seq![
            Some(JsonView::Number(redaction.redacted_count as u64)),
            json_option(fields),
        ]);
    }
    record_json(&names, values)
}

/// The JSON object of an entry.
pub fn entry_to_json(entry: &SwarmActivityLedgerEntry) -> (r: Json)
    ensures
        r@ == entry_json(entry@),
{
    let names: [&str; 8] = [
        "schema",
        "sequence",
        "timestamp_ms",
        "kind",
        "summary",
        "ids",
        "details",
        "redaction",
    ];
    let values: Vec<Option<Json>> = vec![
        Some(Json::Text(entry.schema.as_str().to_owned())),
        Some(Json::Number(entry.sequence)),
        Some(Json::Number(entry.timestamp_ms)),
        Some(Json::Text(name_of_kind(entry.kind).to_owned())),
        Some(Json::Text(entry.summary.as_str().to_owned())),
        Some(ids_to_json(&entry.ids)),
        details_to_json(entry.details()),
        Some(redaction_to_json(&entry.redaction)),
    ];
    proof {
        assert(name_views(names@) =~= entry_fields());
        assert(values@.map_values(|v: Option<Json>| json_option(v)) =~= seq![
            Some(JsonView::Text(entry@.schema)),
            Some(JsonView::Number(entry@.sequence)),
            Some(JsonView::Number(entry@.timestamp_ms)),
            Some(JsonView::Text(kind_name(entry@.kind))),
            Some(JsonView::Text(entry@.summary)),
            Some(ids_json(entry@.ids)),
            details_json(entry@.details),
            Some(redaction_json(entry@.redaction)),
        ]);
    }
    record_json(&names, values)
}

/// The text of a field that must be a string.
fn read_text(value: Option<&Json>) -> (r: Option<String>)
    ensures
        text_option(r) == text_of_json(field_view(value)),
{
    match value {
        Some(Json::Text(text)) => Some(text.as_str().to_owned()),
        _ => None,
    }
}

/// The text of an identifier that must be a string; empty where it is missing.
fn read_id_text(value: Option<&Json>) -> (r: Option<String>)
    ensures
        text_option(r) == id_text_of(field_view(value)),
{
    match value {
        None => Some(String::new()),
        Some(Json::Text(text)) => Some(text.as_str().to_owned()),
        _ => None,
    }
}

/// The integer of a field that must be a number.
fn read_number(value: Option<&Json>) -> (r: Option<u64>)
    ensures
        r == number_of_json(field_view(value)),
{
    match value {
        Some(Json::Number(n)) => Some(*n),
        _ => None,
    }
}

/// The text of a field that may be missing or `null`.
fn read_optional_text(value: Option<&Json>) -> (r: Option<Option<String>>)
    ensures
        optional_text_of(field_view(value)) == match r {
            Some(text) => Some(text_option(text)),
            None => None,
        },
{
    match value {
        None => Some(None),
        Some(Json::Null) => Some(None),
        Some(Json::Text(text)) => Some(Some(text.as_str().to_owned())),
        _ => None,
    }
}

/// The integer of a field that may be missing or `null`.
fn read_optional_number(value: Option<&Json>) -> (r: Option<Option<u64>>)
    ensures
        r == optional_number_of(field_view(value)),
{
    match value {
        None => Some(None),
        Some(Json::Null) => Some(None),
        Some(Json::Number(n)) => Some(Some(*n)),
        _ => None,
    }
}

/// The category of a name.
pub fn kind_by_name(name: &str) -> (r: Option<SwarmActivityKind>)
    ensures
        r == kind_named(name@),
{
    if same_text(name, "bead_status") {
        Some(SwarmActivityKind::BeadStatus)
    } else if same_text(name, "agent_mail") {
        Some(SwarmActivityKind::AgentMail)
    } else if same_text(name, "file_reservation") {
        Some(SwarmActivityKind::FileReservation)
    } else if same_text(name, "rch_job") {
        Some(SwarmActivityKind::RchJob)
    } else if same_text(name, "verification") {
        Some(SwarmActivityKind::Verification)
    } else if same_text(name, "git_commit") {
        Some(SwarmActivityKind::GitCommit)
    } else if same_text(name, "recovery") {
        Some(SwarmActivityKind::Recovery)
    } else if same_text(name, "note") {
        Some(SwarmActivityKind::Note)
    } else {
        None
    }
}

/// The category that a value stands for.
fn read_kind(value: Option<&Json>) -> (r: Option<SwarmActivityKind>)
    ensures
        r == kind_of(field_view(value)),
{
    match value {
        Some(Json::Text(name)) => kind_by_name(name.as_str()),
        Some(Json::Object(members)) => {
            proof {
                object_model(*members);
            }
            if members.len() != 1 {
                return None;
            }
            match &members[0].1 {
                Json::Null => kind_by_name(members[0].0.as_str()),
                _ => None,
            }
        },
        _ => None,
    }
}

/// The identifiers that a value stands for.
pub fn ids_from_json(value: Option<&Json>) -> (r: Option<SwarmActivityIds>)
    ensures
        ids_of(field_view(value)) == match r {
            Some(ids) => Some(ids@),
            None => None,
        },
{
    let json = match value {
        Some(json) => json,
        None => {
            return Some(SwarmActivityIds::default());
        },
    };
    let names: [&str; 9] = [
        "correlation_id",
        "bead_id",
        "mail_thread_id",
        "mail_message_id",
        "agent_name",
        "file_reservation_id",
        "rch_job_id",
        "verification_id",
        "git_sha",
    ];
    assert(name_views(names@) =~= ids_fields());
    if !can_be_record(json, &names) {
        return None;
    }
    let correlation_id = read_id_text(field(json, "correlation_id", 0))?;
    let bead_id = read_optional_text(field(json, "bead_id", 1))?;
    let mail_thread_id = read_optional_text(field(json, "mail_thread_id", 2))?;
    let mail_message_id = read_optional_number(field(json, "mail_message_id", 3))?;
    let agent_name = read_optional_text(field(json, "agent_name", 4))?;
    let file_reservation_id = read_optional_number(field(json, "file_reservation_id", 5))?;
    let rch_job_id = read_optional_text(field(json, "rch_job_id", 6))?;
    let verification_id = read_optional_text(field(json, "verification_id", 7))?;
    let git_sha = read_optional_text(field(json, "git_sha", 8))?;
    Some(
        SwarmActivityIds {
            correlation_id,
            bead_id,
            mail_thread_id,
            mail_message_id,
            agent_name,
            file_reservation_id,
            rch_job_id,
            verification_id,
            git_sha,
        },
    )
}

/// The details that a value stands for.
pub fn details_from_json(value: Option<&Json>) -> (r: Option<SortedMap<String, String>>)
    ensures
        details_of(field_view(value)) == match r {
            Some(details) => Some(details@),
            None => None,
        },
{
    let mut details: SortedMap<String, String> = SortedMap::new();
    match value {
        None => Some(details),
        Some(Json::Object(members)) => {
            let ghost all = member_views(members@);
            proof {
                object_model(*members);
            }
            let mut i: usize = 0;
            while i < members.len()
                invariant
                    i <= members@.len(),
                    all == member_views(members@),
                    field_view(value) == Some(JsonView::Object(all)),
                    all_texts(all.take(i as int)),
                    details@ == map_of(named_texts(all.take(i as int))),
                decreases members@.len() - i,
            {
                match &members[i].1 {
                    Json::Text(text) => {
                        details.put(members[i].0.as_str().to_owned(), text.as_str().to_owned());
                    },
                    _ => {
                        return None;
                    },
                }
                proof {
                    let now = named_texts(all.take(i + 1));
                    assert(now.drop_last() =~= named_texts(all.take(i as int)));
                }
                i += 1;
            }
            assert(all.take(members@.len() as int) =~= all);
            Some(details)
        },
        _ => None,
    }
}

/// The texts of a field that may be missing and must be an array of strings.
fn read_texts(value: Option<&Json>) -> (r: Option<Vec<String>>)
    ensures
        texts_of(field_view(value)) == match r {
            Some(texts) => Some(texts@.map_values(|t: String| t@)),
            None => None,
        },
{
    let mut texts: Vec<String> = Vec::new();
    match value {
        None => Some(texts),
        Some(Json::List(items)) => {
            let ghost all = item_views(items@);
            proof {
                list_model(*items);
            }
            let mut i: usize = 0;
            while i < items.len()
                invariant
                    i <= items@.len(),
                    all == item_views(items@),
                    field_view(value) == Some(JsonView::List(all)),
                    forall|k: int| 0 <= k < i ==> (#[trigger] all[k]) is Text,
                    texts@.len() == i,
                    forall|k: int| 0 <= k < i ==> (#[trigger] texts@[k])@ == all[k]->Text_0,
                decreases items@.len() - i,
            {
                assert(all[i as int] == items@[i as int]@);
                match &items[i] {
                    Json::Text(text) => {
                        texts.push(text.as_str().to_owned());
                    },
                    _ => {
                        return None;
                    },
                }
                i += 1;
            }
            Some(texts)
        },
        _ => None,
    }
}

/// The redaction that a value stands for.
pub fn redaction_from_json(value: Option<&Json>) -> (r: Option<SwarmActivityRedaction>)
    ensures
        redaction_of_json(field_view(value)) == match r {
            Some(redaction) => Some(redaction@),
            None => None,
        },
{
    let json = match value {
        Some(json) => json,
        None => {
            return Some(SwarmActivityRedaction::default());
        },
    };
    let names: [&str; 2] = ["redacted_count", "redacted_fields"];
    assert(name_views(names@) =~= redaction_fields());
    if !can_be_record(json, &names) {
        return None;
    }
    let count: u64 = read_number(field(json, "redacted_count", 0))?;
    let redacted_fields = read_texts(field(json, "redacted_fields", 1))?;
    if count > usize::MAX as u64 {
        return None;
    }
    Some(SwarmActivityRedaction { redacted_count: count as usize, redacted_fields })
}

/// The entry that a value stands for. An object names its fields, and an array has them in their
/// place; unknown fields are passed over, missing ones take their default where there is one.
pub fn entry_from_json(json: &Json) -> (r: Option<SwarmActivityLedgerEntry>)
    ensures
        entry_of(json@) == match r {
            Some(entry) => Some(entry@),
            None => None,
        },
{
    let names: [&str; 8] = [
        "schema",
        "sequence",
        "timestamp_ms",
        "kind",
        "summary",
        "ids",
        "details",
        "redaction",
    ];
    assert(name_views(names@) =~= entry_fields());
    if !can_be_record(json, &names) {
        return None;
    }
    let schema = read_text(field(json, "schema", 0))?;
    let sequence: u64 = read_number(field(json, "sequence", 1))?;
    let timestamp_ms: u64 = read_number(field(json, "timestamp_ms", 2))?;
    let kind = read_kind(field(json, "kind", 3))?;
    let summary = read_text(field(json, "summary", 4))?;
    let ids = ids_from_json(field(json, "ids", 5))?;
    let details = details_from_json(field(json, "details", 6))?;
    let redaction = redaction_from_json(field(json, "redaction", 7))?;
    Some(
        SwarmActivityLedgerEntry {
            schema,
            sequence,
            timestamp_ms,
            kind,
            summary,
            ids,
            details: DetailFields::new(details),
            redaction,
        },
    )
}

} // verus!
