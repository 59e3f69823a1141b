//! What is read from every list of lines, and from every line.

use vstd::prelude::*;

use crate::entry::{EntryView, IdsView, SwarmActivityKind};
use crate::json::{
    after_mark, after_space, understood, understood_items, understood_members, JsonView,
};
use crate::jsonl::{admitted, row_entry, FaultView};
use crate::lexer::{first_json_string, first_json_value, json_value};
use crate::record::{field_at, is_record, member_named, occurrences};
use crate::redaction::RedactionView;
use crate::row::{
    details_of, entry_of, ids_of, kind_named, kind_of, named_texts, redaction_of_json,
};
use crate::row_laws::kind_of_its_name;
use crate::sorted_map::map_of;
use crate::text::{decimal, is_digit, is_space, number_of, trimmed};
use crate::text_laws::trimming_takes_white_space_off_the_ends;

verus! {

/// Whether a text is white space alone, or empty.
pub open spec fn is_blank(text: Seq<char>) -> bool {
    forall|i: int| 0 <= i < text.len() ==> is_space(#[trigger] text[i])
}

/// Nothing is left of a blank text when it is trimmed, and something of every other.
pub proof fn blank_texts_are_trimmed_to_nothing(text: Seq<char>)
    ensures
        is_blank(text) <==> trimmed(text).len() == 0,
{
    let (from, to) = trimming_takes_white_space_off_the_ends(text);
    if from < to {
        assert(!is_space(text[from]));
    }
}

/// Whether a line can be passed on the way: it is blank, or stands for an entry of the ledger's
/// schema whose correlation ID is not blank.
pub open spec fn is_passed(row: Seq<char>) -> bool {
    ||| is_blank(row)
    ||| row_entry(row) matches Some(entry) && entry.schema == "pi.swarm.activity_ledger.v1"@
        && !is_blank(entry.ids.correlation_id)
}

/// Every entry that is read has the schema of the ledger, to the letter, and a correlation ID
/// that is not blank, and stands on one of the lines.
pub proof fn read_entries_have_the_ledger_schema(rows: Seq<Seq<char>>, i: int)
    requires
        admitted(rows) is Ok,
        0 <= i < admitted(rows)->Ok_0.len(),
    ensures
        admitted(rows)->Ok_0[i].schema == "pi.swarm.activity_ledger.v1"@,
        !is_blank(admitted(rows)->Ok_0[i].ids.correlation_id),
        exists|k: int|
            0 <= k < rows.len() && row_entry(#[trigger] rows[k]) == Some(admitted(rows)->Ok_0[i]),
    decreases rows.len(),
{
    let init = rows.drop_last();
    let earlier = admitted(init)->Ok_0;
    blank_texts_are_trimmed_to_nothing(admitted(rows)->Ok_0[i].ids.correlation_id);
    if i < earlier.len() {
        read_entries_have_the_ledger_schema(init, i);
        let k = choose|k: int|
            0 <= k < init.len() && row_entry(#[trigger] init[k]) == Some(earlier[i]);
        assert(rows[k] == init[k]);
    } else {
        assert(row_entry(rows[rows.len() - 1]) == Some(admitted(rows)->Ok_0[i]));
    }
}

/// Lines that can all be passed are read: their entries are those of the lines that are not
/// blank, in their order.
pub proof fn passed_lines_are_read(rows: Seq<Seq<char>>)
    requires
        forall|k: int| 0 <= k < rows.len() ==> is_passed(#[trigger] rows[k]),
    ensures
        admitted(rows) == Ok::<Seq<EntryView>, FaultView>(
            rows.filter(|row: Seq<char>| !is_blank(row)).map_values(
                |row: Seq<char>| row_entry(row)->0,
            ),
        ),
    decreases rows.len(),
{
    reveal(Seq::filter);
    let keep = |row: Seq<char>| !is_blank(row);
    let f = |row: Seq<char>| row_entry(row)->0;
    if rows.len() > 0 {
        let init = rows.drop_last();
        let row = rows.last();
        assert forall|k: int| 0 <= k < init.len() implies is_passed(#[trigger] init[k]) by {
            assert(init[k] == rows[k]);
        }
        passed_lines_are_read(init);
        assert(is_passed(rows[rows.len() - 1]));
        blank_texts_are_trimmed_to_nothing(row);
        if let Some(entry) = row_entry(row) {
            blank_texts_are_trimmed_to_nothing(entry.ids.correlation_id);
        }
        assert(init.filter(keep).push(row).map_values(f) =~= init.filter(keep).map_values(f).push(
            f(row),
        ));
    } else {
        assert(rows.filter(keep).map_values(f) =~= Seq::empty());
    }
}

/// A fault among the first lines is the fault of all lines.
proof fn fault_stays(rows: Seq<Seq<char>>, count: int)
    requires
        0 <= count <= rows.len(),
        admitted(rows.take(count)) is Err,
    ensures
        admitted(rows) == admitted(rows.take(count)),
    decreases rows.len() - count,
{
    if count < rows.len() {
        assert(rows.take(count + 1).drop_last() =~= rows.take(count));
        fault_stays(rows, count + 1);
    } else {
        assert(rows.take(count) =~= rows);
    }
}

/// The first line that cannot be passed decides, whatever follows it. A line that stands for no
/// entry is no row. An entry of any other schema than the ledger's, to the letter, is of an
/// unsupported schema, which the fault names. An entry of that schema without a correlation ID
/// lacks one. The fault gives the number of the line, counted from one.
pub proof fn first_line_that_cannot_be_passed_decides(rows: Seq<Seq<char>>, k: int)
    requires
        0 <= k < rows.len(),
        forall|j: int| 0 <= j < k ==> is_passed(#[trigger] rows[j]),
        !is_blank(rows[k]),
    ensures
        row_entry(rows[k]) is None ==> admitted(rows) == Err::<Seq<EntryView>, FaultView>(
            FaultView::Parse { line: k + 1, is_json: json_value(rows[k]) is Ok },
        ),
        row_entry(rows[k]) matches Some(entry) ==> {
            &&& entry.schema != "pi.swarm.activity_ledger.v1"@ ==> admitted(rows) == Err::<
                Seq<EntryView>,
                FaultView,
            >(FaultView::UnsupportedSchema { line: k + 1, schema: entry.schema })
            &&& entry.schema == "pi.swarm.activity_ledger.v1"@ && is_blank(
                entry.ids.correlation_id,
            ) ==> admitted(rows) == Err::<Seq<EntryView>, FaultView>(
                FaultView::MissingCorrelationId { line: k + 1 },
            )
        },
{
    let head = rows.take(k);
    let upto = rows.take(k + 1);
    assert forall|j: int| 0 <= j < head.len() implies is_passed(#[trigger] head[j]) by {
        assert(head[j] == rows[j]);
    }
    passed_lines_are_read(head);
    assert(upto.drop_last() =~= head);
    assert(upto.last() == rows[k]);
    blank_texts_are_trimmed_to_nothing(rows[k]);
    if let Some(entry) = row_entry(rows[k]) {
        blank_texts_are_trimmed_to_nothing(entry.ids.correlation_id);
    }
    if admitted(upto) is Err {
        fault_stays(rows, k + 1);
    }
}

/// The value that an object has under a name is that of the last member of the name; an array
/// has it in its place.
pub proof fn fields_are_found(
    members: Seq<(Seq<char>, JsonView)>,
    items: Seq<JsonView>,
    name: Seq<char>,
    at: int,
)
    ensures
        field_at(JsonView::Object(members), name, at) is None <==> forall|i: int|
            0 <= i < members.len() ==> (#[trigger] members[i]).0 != name,
        forall|i: int|
            0 <= i < members.len() && (#[trigger] members[i]).0 == name && (forall|j: int|
                i < j < members.len() ==> (#[trigger] members[j]).0 != name) ==> field_at(
                JsonView::Object(members),
                name,
                at,
            ) == Some(members[i].1),
        0 <= at < items.len() ==> field_at(JsonView::List(items), name, at) == Some(items[at]),
        at >= items.len() ==> field_at(JsonView::List(items), name, at) is None,
    decreases members.len(),
{
    if members.len() > 0 {
        let init = members.drop_last();
        let last = members.len() - 1;
        fields_are_found(init, items, name, at);
        assert forall|i: int|
            0 <= i < members.len() && (#[trigger] members[i]).0 == name && (forall|j: int|
                i < j < members.len() ==> (#[trigger] members[j]).0 != name) implies field_at(
            JsonView::Object(members),
            name,
            at,
        ) == Some(members[i].1) by {
            if i < last {
                assert(members[last].0 != name);
                assert(init[i] == members[i]);
                assert forall|j: int| i < j < init.len() implies (#[trigger] init[j]).0 != name by {
                    assert(init[j] == members[j]);
                }
            }
        }
        if members[last].0 != name {
            if forall|i: int| 0 <= i < init.len() ==> (#[trigger] init[i]).0 != name {
                assert forall|i: int| 0 <= i < members.len() implies (#[trigger] members[i]).0
                    != name by {
                    if i < last {
                        assert(init[i] == members[i]);
                    }
                }
            } else {
                let i = choose|i: int| 0 <= i < init.len() && (#[trigger] init[i]).0 == name;
                assert(members[i].0 == name);
            }
        }
    }
}

/// A name occurs twice where two members have it.
proof fn occurrences_are_places(members: Seq<(Seq<char>, JsonView)>, name: Seq<char>)
    ensures
        occurrences(members, name) == 0 <==> forall|i: int|
            0 <= i < members.len() ==> (#[trigger] members[i]).0 != name,
        occurrences(members, name) <= 1 <==> forall|i: int, j: int|
            0 <= i < j < members.len() ==> (#[trigger] members[i]).0 != name || (
            #[trigger] members[j]).0 != name,
    decreases members.len(),
{
    if members.len() > 0 {
        let init = members.drop_last();
        let last = members.len() - 1;
        occurrences_are_places(init, name);
        assert(forall|i: int| 0 <= i < last ==> #[trigger] init[i] == members[i]);
        if members[last].0 == name {
            assert(occurrences(members, name) > 0);
            if occurrences(init, name) > 0 {
                let i = choose|i: int| 0 <= i < init.len() && (#[trigger] init[i]).0 == name;
                assert(members[i].0 == name && members[last].0 == name);
            } else {
                assert forall|i: int, j: int| 0 <= i < j < members.len() implies (
                #[trigger] members[i]).0 != name || (#[trigger] members[j]).0 != name by {
                    assert(init[i] == members[i]);
                }
            }
        } else {
            if occurrences(init, name) == 0 {
                assert forall|i: int| 0 <= i < members.len() implies (#[trigger] members[i]).0
                    != name by {
                    if i < last {
                        assert(init[i] == members[i]);
                    }
                }
            } else {
                let i = choose|i: int| 0 <= i < init.len() && (#[trigger] init[i]).0 == name;
                assert(members[i].0 == name);
            }
            if occurrences(init, name) <= 1 {
                assert forall|i: int, j: int| 0 <= i < j < members.len() implies (
                #[trigger] members[i]).0 != name || (#[trigger] members[j]).0 != name by {
                    if j < last {
                        assert(init[i] == members[i] && init[j] == members[j]);
                    }
                }
            } else {
                let (i, j) = choose|i: int, j: int|
                    0 <= i < j < init.len() && (#[trigger] init[i]).0 == name && (
                    #[trigger] init[j]).0 == name;
                assert(members[i].0 == name && members[j].0 == name);
            }
        }
    }
}

/// A record is an object in which no two members have the same one of its names, or an array of
/// no more values than there are names. Members of other names do no harm, and no other value is
/// a record.
pub proof fn records_are_told(
    members: Seq<(Seq<char>, JsonView)>,
    items: Seq<JsonView>,
    names: Seq<Seq<char>>,
)
    ensures
        is_record(JsonView::Object(members), names) <==> forall|i: int, j: int|
            0 <= i < j < members.len() && (#[trigger] members[i]).0 == (#[trigger] members[j]).0
                ==> !names.contains(members[i].0),
        is_record(JsonView::List(items), names) <==> items.len() <= names.len(),
        forall|json: JsonView| #[trigger]
            is_record(json, names) ==> json is Object || json is List,
{
    assert forall|name: Seq<char>| #[trigger] occurrences(members, name) <= 1 <==> forall|
        i: int,
        j: int,
    |
        0 <= i < j < members.len() ==> (#[trigger] members[i]).0 != name || (
        #[trigger] members[j]).0 != name by {
        occurrences_are_places(members, name);
    }
    if is_record(JsonView::Object(members), names) {
        assert forall|i: int, j: int|
            0 <= i < j < members.len() && (#[trigger] members[i]).0 == (
            #[trigger] members[j]).0 implies !names.contains(members[i].0) by {
            if names.contains(members[i].0) {
                let k = choose|k: int| 0 <= k < names.len() && names[k] == members[i].0;
                assert(occurrences(members, names[k]) <= 1);
            }
        }
    }
    if forall|i: int, j: int|
        0 <= i < j < members.len() && (#[trigger] members[i]).0 == (#[trigger] members[j]).0
            ==> !names.contains(members[i].0) {
        assert forall|k: int| 0 <= k < names.len() implies occurrences(members, #[trigger] names[k])
            <= 1 by {
            assert(names.contains(names[k]));
            if occurrences(members, names[k]) > 1 {
                let (i, j) = choose|i: int, j: int|
                    0 <= i < j < members.len() && (#[trigger] members[i]).0 == names[k] && (
                    #[trigger] members[j]).0 == names[k];
                assert(members[i].0 == members[j].0);
            }
        }
    }
}

/// The name by which a kind is written and read.
pub open spec fn is_name_of(name: Seq<char>, kind: SwarmActivityKind) -> bool {
    match kind {
        SwarmActivityKind::BeadStatus => name == "bead_status"@,
        SwarmActivityKind::AgentMail => name == "agent_mail"@,
        SwarmActivityKind::FileReservation => name == "file_reservation"@,
        SwarmActivityKind::RchJob => name == "rch_job"@,
        SwarmActivityKind::Verification => name == "verification"@,
        SwarmActivityKind::GitCommit => name == "git_commit"@,
        SwarmActivityKind::Recovery => name == "recovery"@,
        SwarmActivityKind::Note => name == "note"@,
    }
}

/// Whether a field is a string that holds the given text.
pub open spec fn is_text(field: Option<JsonView>, text: Seq<char>) -> bool {
    field matches Some(JsonView::Text(t)) && t == text
}

/// Whether a field is the given number.
pub open spec fn is_number(field: Option<JsonView>, number: u64) -> bool {
    field matches Some(JsonView::Number(n)) && n == number
}

/// Whether a field that may be left out, or stand as `null`, is the given text.
pub open spec fn is_text_if_any(field: Option<JsonView>, text: Option<Seq<char>>) -> bool {
    match text {
        Some(t) => is_text(field, t),
        None => field is None || field->0 is Null,
    }
}

/// Whether a field that may be left out, or stand as `null`, is the given number.
pub open spec fn is_number_if_any(field: Option<JsonView>, number: Option<u64>) -> bool {
    match number {
        Some(n) => is_number(field, n),
        None => field is None || field->0 is Null,
    }
}

/// Whether a field names a kind, as a string or as an object with `null` under the name.
pub open spec fn is_kind(field: Option<JsonView>, kind: SwarmActivityKind) -> bool {
    ||| field matches Some(JsonView::Text(name)) && is_name_of(name, kind)
    ||| field matches Some(JsonView::Object(members)) && members.len() == 1 && members[0].1 is Null
        && is_name_of(members[0].0, kind)
}

/// Whether a field holds the given identifiers, each under its own name. One that is left out is
/// unknown, the correlation ID then empty; so are all where the field is left out.
pub open spec fn is_ids(field: Option<JsonView>, ids: IdsView) -> bool {
    match field {
        None => {
            &&& ids.correlation_id.len() == 0
            &&& ids.bead_id is None
            &&& ids.mail_thread_id is None
            &&& ids.mail_message_id is None
            &&& ids.agent_name is None
            &&& ids.file_reservation_id is None
            &&& ids.rch_job_id is None
            &&& ids.verification_id is None
            &&& ids.git_sha is None
        },
        Some(json) => {
            &&& is_record(
                json,
                seq![
                    "correlation_id"@,
                    "bead_id"@,
                    "mail_thread_id"@,
                    "mail_message_id"@,
                    "agent_name"@,
                    "file_reservation_id"@,
                    "rch_job_id"@,
                    "verification_id"@,
                    "git_sha"@,
                ],
            )
            &&& is_text(field_at(json, "correlation_id"@, 0), ids.correlation_id) || (field_at(
                json,
                "correlation_id"@,
                0,
            ) is None && ids.correlation_id.len() == 0)
            &&& is_text_if_any(field_at(json, "bead_id"@, 1), ids.bead_id)
            &&& is_text_if_any(field_at(json, "mail_thread_id"@, 2), ids.mail_thread_id)
            &&& is_number_if_any(field_at(json, "mail_message_id"@, 3), ids.mail_message_id)
            &&& is_text_if_any(field_at(json, "agent_name"@, 4), ids.agent_name)
            &&& is_number_if_any(field_at(json, "file_reservation_id"@, 5), ids.file_reservation_id)
            &&& is_text_if_any(field_at(json, "rch_job_id"@, 6), ids.rch_job_id)
            &&& is_text_if_any(field_at(json, "verification_id"@, 7), ids.verification_id)
            &&& is_text_if_any(field_at(json, "git_sha"@, 8), ids.git_sha)
        },
    }
}

/// Whether a field holds the given details: an object of strings, of a repeated name the last,
/// or nothing where there are none.
pub open spec fn is_details(field: Option<JsonView>, details: Map<Seq<char>, Seq<char>>) -> bool {
    match field {
        None => details == Map::<Seq<char>, Seq<char>>::empty(),
        Some(JsonView::Object(members)) => {
            &&& forall|i: int| 0 <= i < members.len() ==> (#[trigger] members[i]).1 is Text
            &&& forall|name: Seq<char>| #[trigger]
                details.contains_key(name) <==> field_at(field->0, name, 0) is Some
            &&& forall|name: Seq<char>| #[trigger]
                details.contains_key(name) ==> is_text(
                    field_at(field->0, name, 0),
                    details[name],
                )
        },
        _ => false,
    }
}

/// Whether a field holds the given redaction; nothing was redacted where it is left out.
pub open spec fn is_redaction(field: Option<JsonView>, redaction: RedactionView) -> bool {
    match field {
        None => redaction.redacted_count == 0 && redaction.redacted_fields.len() == 0,
        Some(json) => {
            &&& is_record(json, seq!["redacted_count"@, "redacted_fields"@])
            &&& is_number(field_at(json, "redacted_count"@, 0), redaction.redacted_count as u64)
            &&& match field_at(json, "redacted_fields"@, 1) {
                None => redaction.redacted_fields.len() == 0,
                Some(JsonView::List(items)) => {
                    &&& items.len() == redaction.redacted_fields.len()
                    &&& forall|i: int|
                        0 <= i < items.len() ==> #[trigger] items[i] == JsonView::Text(
                            redaction.redacted_fields[i],
                        )
                },
                _ => false,
            }
        },
    }
}

/// A field names a kind where that kind is read from it.
proof fn kinds_are_read(field: Option<JsonView>, kind: SwarmActivityKind)
    ensures
        kind_of(field) == Some(kind) <==> is_kind(field, kind),
{
    kind_of_its_name(kind);
    assert forall|name: Seq<char>| #[trigger] kind_named(name) == Some(kind) <==> is_name_of(
        name,
        kind,
    ) by {}
}

/// A field holds identifiers where these are read from it.
proof fn ids_are_read(field: Option<JsonView>, ids: IdsView)
    ensures
        ids_of(field) == Some(ids) <==> is_ids(field, ids),
{
    if field is None {
        if is_ids(field, ids) {
            assert(ids.correlation_id =~= Seq::empty());
        }
    } else {
        if ids.correlation_id.len() == 0 {
            assert(ids.correlation_id =~= Seq::empty());
        }
        assert(crate::row::ids_fields() =~= seq![
            "correlation_id"@,
            "bead_id"@,
            "mail_thread_id"@,
            "mail_message_id"@,
            "agent_name"@,
            "file_reservation_id"@,
            "rch_job_id"@,
            "verification_id"@,
            "git_sha"@,
        ]);
    }
}

/// What is bound to a name is the last text of that name.
proof fn texts_are_bound(members: Seq<(Seq<char>, JsonView)>, name: Seq<char>)
    requires
        forall|i: int| 0 <= i < members.len() ==> (#[trigger] members[i]).1 is Text,
    ensures
        map_of(named_texts(members)).contains_key(name) <==> member_named(members, name) is Some,
        map_of(named_texts(members)).contains_key(name) ==> member_named(members, name) == Some(
            JsonView::Text(map_of(named_texts(members))[name]),
        ),
    decreases members.len(),
{
    if members.len() > 0 {
        let init = members.drop_last();
        assert forall|i: int| 0 <= i < init.len() implies (#[trigger] init[i]).1 is Text by {
            assert(init[i] == members[i]);
        }
        texts_are_bound(init, name);
        assert(named_texts(members).drop_last() =~= named_texts(init));
        assert(members[members.len() - 1].1 is Text);
    }
}

/// A field holds details where these are read from it.
proof fn details_are_read(field: Option<JsonView>, details: Map<Seq<char>, Seq<char>>)
    ensures
        details_of(field) == Some(details) <==> is_details(field, details),
{
    if let Some(JsonView::Object(members)) = field {
        if forall|i: int| 0 <= i < members.len() ==> (#[trigger] members[i]).1 is Text {
            let bound = map_of(named_texts(members));
            assert forall|name: Seq<char>| #[trigger]
                bound.contains_key(name) <==> field_at(field->0, name, 0) is Some by {
                texts_are_bound(members, name);
            }
            assert forall|name: Seq<char>| #[trigger] bound.contains_key(name) implies is_text(
                field_at(field->0, name, 0),
                bound[name],
            ) by {
                texts_are_bound(members, name);
            }
            if is_details(field, details) {
                assert forall|name: Seq<char>| #[trigger] bound.contains_key(name)
                    <==> details.contains_key(name) by {}
                assert(bound =~= details);
            }
        }
    }
}

/// A field holds a redaction where it is read from it.
proof fn redactions_are_read(field: Option<JsonView>, redaction: RedactionView)
    ensures
        redaction_of_json(field) == Some(redaction) <==> is_redaction(field, redaction),
{
    if field is None {
        if is_redaction(field, redaction) {
            assert(redaction.redacted_fields =~= Seq::empty());
        }
    } else {
        let json = field->0;
        assert(crate::row::redaction_fields() =~= seq!["redacted_count"@, "redacted_fields"@]);
        match field_at(json, "redacted_fields"@, 1) {
            None => {
                if redaction.redacted_fields.len() == 0 {
                    assert(redaction.redacted_fields =~= Seq::empty());
                }
            },
            Some(JsonView::List(items)) => {
                let texts = items.map_values(|item: JsonView| item->Text_0);
                if forall|i: int| 0 <= i < items.len() ==> (#[trigger] items[i]) is Text {
                    assert forall|i: int| 0 <= i < items.len() implies #[trigger] items[i]
                        == JsonView::Text(texts[i]) by {}
                }
                if is_redaction(field, redaction) {
                    assert(texts =~= redaction.redacted_fields);
                }
            },
            _ => {},
        }
    }
}

/// A line stands for an entry where it is a JSON value that holds each field of the entry under
/// the name of the field, or in its place: schema, sequence, time, kind and summary must stand
/// there, identifiers, details and redaction may be left out.
pub proof fn lines_are_read_field_by_field(line: Seq<char>, entry: EntryView)
    ensures
        row_entry(line) == Some(entry) <==> json_value(line) is Ok && {
            let json = understood(json_value(line)->Ok_0, 3);
            &&& is_record(
                json,
                seq![
                    "schema"@,
                    "sequence"@,
                    "timestamp_ms"@,
                    "kind"@,
                    "summary"@,
                    "ids"@,
                    "details"@,
                    "redaction"@,
                ],
            )
            &&& is_text(field_at(json, "schema"@, 0), entry.schema)
            &&& is_number(field_at(json, "sequence"@, 1), entry.sequence)
            &&& is_number(field_at(json, "timestamp_ms"@, 2), entry.timestamp_ms)
            &&& is_kind(field_at(json, "kind"@, 3), entry.kind)
            &&& is_text(field_at(json, "summary"@, 4), entry.summary)
            &&& is_ids(field_at(json, "ids"@, 5), entry.ids)
            &&& is_details(field_at(json, "details"@, 6), entry.details)
            &&& is_redaction(field_at(json, "redaction"@, 7), entry.redaction)
        },
{
    if json_value(line) is Ok {
        let json = understood(json_value(line)->Ok_0, 3);
        assert(crate::row::entry_fields() =~= seq![
            "schema"@,
            "sequence"@,
            "timestamp_ms"@,
            "kind"@,
            "summary"@,
            "ids"@,
            "details"@,
            "redaction"@,
        ]);
        kinds_are_read(field_at(json, "kind"@, 3), entry.kind);
        ids_are_read(field_at(json, "ids"@, 5), entry.ids);
        details_are_read(field_at(json, "details"@, 6), entry.details);
        redactions_are_read(field_at(json, "redaction"@, 7), entry.redaction);
        if let Some(read) = entry_of(json) {
            kinds_are_read(field_at(json, "kind"@, 3), read.kind);
        }
    }
}

/// Whether a text is space between the parts of JSON, or empty.
pub open spec fn is_gap(text: Seq<char>) -> bool {
    forall|i: int|
        0 <= i < text.len() ==> #[trigger] text[i] == ' ' || text[i] == '\n' || text[i] == '\r'
            || text[i] == '\t'
}

/// A mark is found behind a gap.
proof fn mark_is_found(space: Seq<char>, mark: char, rest: Seq<char>)
    requires
        is_gap(space),
        mark == ':' || mark == ',' || mark == '}' || mark == ']',
    ensures
        after_space(space + seq![mark] + rest) == seq![mark] + rest,
        after_mark(space + seq![mark] + rest, mark) == Some(rest),
        forall|other: char|
            other != mark ==> #[trigger] after_mark(space + seq![mark] + rest, other) is None,
    decreases space.len(),
{
    let text = space + seq![mark] + rest;
    if space.len() == 0 {
        assert(text =~= seq![mark] + rest);
        assert(text.skip(1) =~= rest);
    } else {
        assert(text[0] == space[0]);
        assert(text.skip(1) =~= space.skip(1) + seq![mark] + rest);
        mark_is_found(space.skip(1), mark, rest);
        assert((seq![mark] + rest).skip(1) =~= rest);
    }
}

/// A string, a whole number and `null` are told by their text, and taken for nothing else.
pub proof fn plain_values_are_told(text: Seq<char>, depth: nat)
    ensures
        understood(text, depth) matches JsonView::Text(t) ==> first_json_string(text) == Some(
            (t, Seq::<char>::empty()),
        ),
        first_json_string(text) matches Some((t, rest)) ==> (rest.len() == 0 ==> understood(
            text,
            depth,
        ) == JsonView::Text(t)),
        understood(text, depth) is Null ==> text == "null"@,
        understood(text, depth) matches JsonView::Number(n) ==> {
            &&& text.len() > 0
            &&& forall|i: int| 0 <= i < text.len() ==> 48 <= (#[trigger] text[i]) as u32 <= 57
            &&& number_of(text) == n
        },
        understood(text, depth) is Object ==> text.len() > 0 && text[0] == '{',
        understood(text, depth) is List ==> text.len() > 0 && text[0] == '[',
{
    if let Some((string, rest)) = first_json_string(text) {
        if rest.len() == 0 {
            assert(rest =~= Seq::empty());
        }
    }
    if understood(text, depth) is Number {
        assert forall|i: int| 0 <= i < text.len() implies 48 <= (#[trigger] text[i]) as u32
            <= 57 by {
            assert(is_digit(text[i]));
        }
    }
}

/// The members of an object are read one by one: a name, a colon, a value, and then a comma and
/// the others, or the brace that ends the object, with any gaps between them.
pub proof fn members_are_read_one_by_one(
    text: Seq<char>,
    at_start: bool,
    depth: nat,
    name: Seq<char>,
    before_colon: Seq<char>,
    value_text: Seq<char>,
    value: Seq<char>,
    gap: Seq<char>,
    next: Seq<char>,
)
    requires
        is_gap(before_colon),
        is_gap(gap),
        first_json_string(text) == Some((name, before_colon + seq![':'] + value_text)),
    ensures
        first_json_value(value_text) == Some((value, gap + seq!['}'])) ==> understood_members(
            text,
            at_start,
            depth,
        ) == Some(seq![(name, understood(value, depth))]),
        first_json_value(value_text) == Some((value, gap + seq![','] + next)) && next.len()
            < text.len() ==> understood_members(text, at_start, depth) == (match understood_members(
            next,
            false,
            depth,
        ) {
            Some(others) => Some(seq![(name, understood(value, depth))] + others),
            None => None,
        }),
{
    mark_is_found(before_colon, ':', value_text);
    mark_is_found(gap, '}', Seq::empty());
    assert(gap + seq!['}'] + Seq::<char>::empty() =~= gap + seq!['}']);
    mark_is_found(gap, ',', next);
}

/// The items of an array are read one by one: a value, and then a comma and the others, or the
/// bracket that ends the array, with any gaps between them.
pub proof fn items_are_read_one_by_one(
    text: Seq<char>,
    at_start: bool,
    depth: nat,
    value: Seq<char>,
    gap: Seq<char>,
    next: Seq<char>,
)
    requires
        is_gap(gap),
    ensures
        first_json_value(text) == Some((value, gap + seq![']'])) ==> understood_items(
            text,
            at_start,
            depth,
        ) == Some(seq![understood(value, depth)]),
        first_json_value(text) == Some((value, gap + seq![','] + next)) && next.len() < text.len()
            ==> understood_items(text, at_start, depth) == (match understood_items(
            next,
            false,
            depth,
        ) {
            Some(others) => Some(seq![understood(value, depth)] + others),
            None => None,
        }),
{
    mark_is_found(gap, ']', Seq::empty());
    assert(gap + seq![']'] + Seq::<char>::empty() =~= gap + seq![']']);
    mark_is_found(gap, ',', next);
}

/// The message of a fault names the line, and the schema or the source where there is one.
pub proof fn faults_are_told(line: nat, is_json: bool, schema: Seq<char>, source: Seq<char>)
    ensures
        (FaultView::Parse { line: line as int, is_json }).message(source)
            == "failed to parse swarm activity ledger line "@ + decimal(line) + ": "@ + source,
        (FaultView::UnsupportedSchema { line: line as int, schema }).message(source)
            == "unsupported swarm activity ledger schema on line "@ + decimal(line) + ": "@
            + schema,
        (FaultView::MissingCorrelationId { line: line as int }).message(source)
            == "missing correlation_id on swarm activity ledger line "@ + decimal(line),
{
}

/// Identifiers of which only the correlation ID was given know no other.
pub proof fn fresh_ids_know_only_the_correlation_id(correlation_id: Seq<char>)
    ensures
        ({
            let ids = IdsView::only(correlation_id);
            &&& ids.correlation_id == correlation_id
            &&& ids.bead_id is None
            &&& ids.mail_thread_id is None
            &&& ids.mail_message_id is None
            &&& ids.agent_name is None
            &&& ids.file_reservation_id is None
            &&& ids.rch_job_id is None
            &&& ids.verification_id is None
            &&& ids.git_sha is None
        }),
{
}

} // verus!
