//! How every entry is written.

use vstd::prelude::*;

use crate::entry::{EntryView, IdsView};
use crate::json::{
    escaped, escaped_char, json_string, rendered, rendered_items, rendered_members, JsonView,
};
use crate::jsonl::{jsonl_text, row_text, row_texts};
use crate::ordered::Ordered;
use crate::reading_laws::is_name_of;
use crate::record::present;
use crate::redaction::RedactionView;
use crate::row::{
    details_json, entry_fields, ids_fields, ids_json, kind_name, number_json, redaction_fields,
    redaction_json, text_json,
};
use crate::sorted_map::{
    ascending, ascending_exists, ascending_is_unique, ascending_map_binds, ascends, map_of,
};
use crate::text::decimal;
use crate::text_laws::{
    line_feeds_stand_between_rows, reads_before, texts_go_by_their_first_difference,
};

verus! {

/// A character that is neither a quotation mark, a backslash nor a control character stands in a
/// JSON string as it is; a quotation mark and a backslash have a backslash ahead of them.
pub proof fn characters_stand_in_strings(text: Seq<char>, c: char)
    ensures
        json_string(Seq::empty()) == seq!['"', '"'],
        json_string(text.push(c)) == seq!['"'] + escaped(text) + escaped_char(c) + seq!['"'],
        c as u32 >= 32 && c != '"' && c != '\\' ==> escaped_char(c) == seq![c],
        c == '"' || c == '\\' ==> escaped_char(c) == seq!['\\', c],
        (c as u32) < 32 ==> escaped_char(c)[0] == '\\',
{
    assert(text.push(c).drop_last() =~= text);
    assert(json_string(Seq::empty()) =~= seq!['"', '"']);
    assert(json_string(text.push(c)) =~= seq!['"'] + escaped(text) + escaped_char(c) + seq!['"']);
}

/// Whether a text needs no escaping.
spec fn is_plain(text: Seq<char>) -> bool {
    forall|i: int|
        0 <= i < text.len() ==> 'a' <= #[trigger] text[i] <= 'z' || text[i] == '_'
}

/// A plain text is written as it is.
proof fn plain_texts_stand(text: Seq<char>)
    requires
        is_plain(text),
    ensures
        escaped(text) == text,
    decreases text.len(),
{
    if text.len() > 0 {
        let init = text.drop_last();
        let last = text[text.len() - 1];
        assert forall|i: int| 0 <= i < init.len() implies 'a' <= #[trigger] init[i] <= 'z'
            || init[i] == '_' by {
            assert(init[i] == text[i]);
        }
        plain_texts_stand(init);
        plain_character_stands(last);
        assert(text =~= init + seq![last]);
    } else {
        assert(escaped(text) =~= text);
    }
}

/// A plain character is written as it is.
proof fn plain_character_stands(c: char)
    requires
        'a' <= c <= 'z' || c == '_',
    ensures
        escaped_char(c) == seq![c],
{
}

/// A value behind its name.
pub open spec fn labelled(name: Seq<char>, value: Seq<char>) -> Seq<char> {
    seq!['"'] + name + seq!['"', ':'] + value
}

/// One more value behind its name, where there is a value.
pub open spec fn followed_by(name: Seq<char>, value: Option<Seq<char>>) -> Seq<char> {
    match value {
        Some(text) => seq![','] + labelled(name, text),
        None => Seq::empty(),
    }
}

/// The members of an object, one behind the other, with a comma between each and the next.
spec fn members_text(members: Seq<(Seq<char>, JsonView)>) -> Seq<char>
    decreases members.len(),
{
    if members.len() == 0 {
        Seq::empty()
    } else {
        let last = json_string(members.last().0) + seq![':'] + rendered(members.last().1);
        if members.len() == 1 {
            last
        } else {
            members_text(members.drop_last()) + seq![','] + last
        }
    }
}

/// The members of an object from one on are written behind those ahead of it.
proof fn members_are_written(members: Seq<(Seq<char>, JsonView)>, from: int)
    requires
        0 <= from < members.len(),
    ensures
        members_text(members) + seq!['}'] == members_text(members.take(from)) + (if from == 0 {
            Seq::empty()
        } else {
            seq![',']
        }) + rendered_members(members, from),
    decreases members.len() - from,
{
    reveal_strlit(":");
    reveal_strlit(",");
    reveal_strlit("}");
    let here = members.take(from + 1);
    let comma = if from == 0 {
        Seq::<char>::empty()
    } else {
        seq![',']
    };
    let one = json_string(members[from].0) + seq![':'] + rendered(members[from].1);
    assert(here.drop_last() =~= members.take(from));
    assert(here.last() == members[from]);
    assert(members_text(here) =~= members_text(members.take(from)) + comma + one) by {
        if from == 0 {
            assert(members.take(0) =~= Seq::empty());
        }
    }
    assert(":"@ =~= seq![':'] && ","@ =~= seq![','] && "}"@ =~= seq!['}']);
    if from + 1 < members.len() {
        members_are_written(members, from + 1);
        assert(rendered_members(members, from) =~= one + (seq![','] + rendered_members(
            members,
            from + 1,
        )));
        assert(members_text(members) + seq!['}'] =~= members_text(members.take(from)) + comma
            + rendered_members(members, from));
    } else {
        assert(here =~= members);
        assert(rendered_members(members, from) =~= one + seq!['}']);
        assert(members_text(members) + seq!['}'] =~= members_text(members.take(from)) + comma
            + rendered_members(members, from));
    }
}

/// An object is written as its members between braces.
proof fn objects_are_written(members: Seq<(Seq<char>, JsonView)>)
    ensures
        rendered(JsonView::Object(members)) == seq!['{'] + members_text(members) + seq!['}'],
{
    reveal_strlit("{");
    reveal_strlit("}");
    assert("{"@ =~= seq!['{'] && "}"@ =~= seq!['}']);
    if members.len() > 0 {
        members_are_written(members, 0);
        assert(members.take(0) =~= Seq::empty());
        assert(members_text(members.take(0)) =~= Seq::empty());
        assert(members_text(members) + seq!['}'] =~= rendered_members(members, 0));
    }
    assert(rendered(JsonView::Object(members)) =~= seq!['{'] + members_text(members) + seq!['}']);
}

/// The text of a value, where there is one.
spec fn text_if_any(value: Option<JsonView>) -> Option<Seq<char>> {
    match value {
        Some(json) => Some(rendered(json)),
        None => None,
    }
}

/// The first field of a record is written behind its name.
proof fn first_field_is_written(names: Seq<Seq<char>>, values: Seq<Option<JsonView>>)
    requires
        names.len() == values.len() >= 1,
        values[0] is Some,
        is_plain(names[0]),
    ensures
        present(names.take(1), values.take(1)).len() == 1,
        members_text(present(names.take(1), values.take(1))) == labelled(
            names[0],
            rendered(values[0]->0),
        ),
{
    let (n, v) = (names.take(1), values.take(1));
    assert(present(n.drop_last(), v.drop_last()) =~= Seq::empty());
    assert(v.last() == values[0] && n.last() == names[0]);
    assert(present(n, v) =~= seq![(names[0], values[0]->0)]);
    plain_texts_stand(names[0]);
    assert(members_text(present(n, v)) =~= labelled(names[0], rendered(values[0]->0)));
}

/// A further field of a record is written behind those ahead of it, where it has a value.
proof fn further_field_is_written(
    names: Seq<Seq<char>>,
    values: Seq<Option<JsonView>>,
    at: int,
)
    requires
        1 <= at < names.len() == values.len(),
        present(names.take(at), values.take(at)).len() > 0,
        is_plain(names[at]),
    ensures
        present(names.take(at + 1), values.take(at + 1)).len() > 0,
        members_text(present(names.take(at + 1), values.take(at + 1))) == members_text(
            present(names.take(at), values.take(at)),
        ) + followed_by(names[at], text_if_any(values[at])),
{
    let (n, v) = (names.take(at + 1), values.take(at + 1));
    let others = present(names.take(at), values.take(at));
    assert(n.drop_last() =~= names.take(at) && v.drop_last() =~= values.take(at));
    assert(n.last() == names[at] && v.last() == values[at]);
    plain_texts_stand(names[at]);
    if let Some(value) = values[at] {
        let all = others.push((names[at], value));
        assert(all.drop_last() =~= others);
        assert(members_text(all) =~= members_text(others) + followed_by(
            names[at],
            Some(rendered(value)),
        ));
    } else {
        assert(members_text(others) =~= members_text(others) + followed_by(names[at], None));
    }
}

/// A text between quotation marks, where there is one.
pub open spec fn quoted(text: Option<Seq<char>>) -> Option<Seq<char>> {
    match text {
        Some(t) => Some(json_string(t)),
        None => None,
    }
}

/// A number in decimal notation, where there is one.
pub open spec fn noted(number: Option<u64>) -> Option<Seq<char>> {
    match number {
        Some(n) => Some(decimal(n as nat)),
        None => None,
    }
}

/// Identifiers as they are written: the correlation ID, and behind it those that are known, each
/// behind its name.
pub open spec fn ids_text(ids: IdsView) -> Seq<char> {
    seq!['{'] + (labelled("correlation_id"@, json_string(ids.correlation_id)) + followed_by(
        "bead_id"@,
        quoted(ids.bead_id),
    ) + followed_by("mail_thread_id"@, quoted(ids.mail_thread_id)) + followed_by(
        "mail_message_id"@,
        noted(ids.mail_message_id),
    ) + followed_by("agent_name"@, quoted(ids.agent_name)) + followed_by(
        "file_reservation_id"@,
        noted(ids.file_reservation_id),
    ) + followed_by("rch_job_id"@, quoted(ids.rch_job_id)) + followed_by(
        "verification_id"@,
        quoted(ids.verification_id),
    ) + followed_by("git_sha"@, quoted(ids.git_sha))) + seq!['}']
}

/// The names of identifiers need no escaping.
proof fn names_of_ids_are_plain()
    ensures
        forall|i: int| 0 <= i < ids_fields().len() ==> is_plain(#[trigger] ids_fields()[i]),
{
    reveal_strlit("correlation_id");
    reveal_strlit("bead_id");
    reveal_strlit("mail_thread_id");
    reveal_strlit("mail_message_id");
    reveal_strlit("agent_name");
    reveal_strlit("file_reservation_id");
    reveal_strlit("rch_job_id");
    reveal_strlit("verification_id");
    reveal_strlit("git_sha");
}

/// Identifiers are written one behind the other, the unknown ones left out.
pub proof fn ids_are_written(ids: IdsView)
    ensures
        rendered(ids_json(ids)) == ids_text(ids),
{
    names_of_ids_are_plain();
    let names = ids_fields();
    let values = seq![
        Some(JsonView::Text(ids.correlation_id)),
        text_json(ids.bead_id),
        text_json(ids.mail_thread_id),
        number_json(ids.mail_message_id),
        text_json(ids.agent_name),
        number_json(ids.file_reservation_id),
        text_json(ids.rch_job_id),
        text_json(ids.verification_id),
        text_json(ids.git_sha),
    ];
    first_field_is_written(names, values);
    further_field_is_written(names, values, 1);
    further_field_is_written(names, values, 2);
    further_field_is_written(names, values, 3);
    further_field_is_written(names, values, 4);
    further_field_is_written(names, values, 5);
    further_field_is_written(names, values, 6);
    further_field_is_written(names, values, 7);
    further_field_is_written(names, values, 8);
    assert(names.take(9) =~= names && values.take(9) =~= values);
    objects_are_written(present(names, values));
}

/// Names and texts as they are written, with a comma between each pair and the next.
pub open spec fn pairs_text(pairs: Seq<(Seq<char>, Seq<char>)>) -> Seq<char>
    decreases pairs.len(),
{
    if pairs.len() == 0 {
        Seq::empty()
    } else {
        let last = json_string(pairs.last().0) + seq![':'] + json_string(pairs.last().1);
        if pairs.len() == 1 {
            last
        } else {
            pairs_text(pairs.drop_last()) + seq![','] + last
        }
    }
}

/// Members that are strings are written as their names and texts.
proof fn text_members_are_written(pairs: Seq<(Seq<char>, Seq<char>)>)
    ensures
        members_text(
            pairs.map_values(|p: (Seq<char>, Seq<char>)| (p.0, JsonView::Text(p.1))),
        ) == pairs_text(pairs),
    decreases pairs.len(),
{
    let f = |p: (Seq<char>, Seq<char>)| (p.0, JsonView::Text(p.1));
    if pairs.len() > 0 {
        text_members_are_written(pairs.drop_last());
        assert(pairs.map_values(f).drop_last() =~= pairs.drop_last().map_values(f));
    }
}

/// Details are written as an object of strings in the order of their names, and left out where
/// there are none. `pairs` gives them in that order.
pub proof fn details_are_written(
    details: Map<Seq<char>, Seq<char>>,
    pairs: Seq<(Seq<char>, Seq<char>)>,
)
    requires
        forall|i: int, j: int|
            0 <= i < j < pairs.len() ==> reads_before(
                (#[trigger] pairs[i]).0,
                (#[trigger] pairs[j]).0,
            ),
        map_of(pairs) == details,
    ensures
        pairs.len() == 0 ==> details_json(details) is None,
        pairs.len() > 0 ==> details_json(details) is Some && rendered(details_json(details)->0)
            == seq!['{'] + pairs_text(pairs) + seq!['}'],
{
    assert(ascends::<String, Seq<char>>(pairs)) by {
        assert forall|i: int, j: int|
            0 <= i < j < pairs.len() implies <String as Ordered>::precedes(
            (#[trigger] pairs[i]).0,
            (#[trigger] pairs[j]).0,
        ) by {
            texts_go_by_their_first_difference(pairs[i].0, pairs[j].0);
        }
    }
    ascending_map_binds::<String, Seq<char>>(pairs);
    ascending_exists::<String, Seq<char>>(details);
    ascending_is_unique::<String, Seq<char>>(pairs, ascending::<String, Seq<char>>(details));
    if pairs.len() > 0 {
        assert(details.contains_key(pairs[0].0));
        text_members_are_written(pairs);
        objects_are_written(
            pairs.map_values(|p: (Seq<char>, Seq<char>)| (p.0, JsonView::Text(p.1))),
        );
    } else {
        assert(details =~= Map::empty());
    }
}

/// Texts between quotation marks, with a comma between each and the next.
pub open spec fn texts_text(texts: Seq<Seq<char>>) -> Seq<char>
    decreases texts.len(),
{
    if texts.len() == 0 {
        Seq::empty()
    } else if texts.len() == 1 {
        json_string(texts[0])
    } else {
        json_string(texts[0]) + seq![','] + texts_text(texts.skip(1))
    }
}

/// Strings of an array are written one behind the other.
proof fn text_items_are_written(texts: Seq<Seq<char>>, from: int)
    requires
        0 <= from < texts.len(),
    ensures
        rendered_items(texts.map_values(|t: Seq<char>| JsonView::Text(t)), from) == texts_text(
            texts.skip(from),
        ) + seq![']'],
    decreases texts.len() - from,
{
    reveal_strlit(",");
    reveal_strlit("]");
    assert(","@ =~= seq![','] && "]"@ =~= seq![']']);
    let items = texts.map_values(|t: Seq<char>| JsonView::Text(t));
    let rest = texts.skip(from);
    assert(rest[0] == texts[from]);
    if from + 1 < texts.len() {
        text_items_are_written(texts, from + 1);
        assert(rest.skip(1) =~= texts.skip(from + 1));
        assert(rendered_items(items, from) == rendered(items[from]) + (","@ + rendered_items(
            items,
            from + 1,
        )));
        assert(texts_text(rest) == json_string(rest[0]) + seq![','] + texts_text(rest.skip(1)));
    } else {
        assert(rendered_items(items, from) == rendered(items[from]) + "]"@);
    }
    assert(rendered_items(items, from) =~= texts_text(rest) + seq![']']);
}

/// A redaction as it is written: the number of fields, and their names where there are any.
pub open spec fn redaction_text(redaction: RedactionView) -> Seq<char> {
    seq!['{'] + (labelled("redacted_count"@, decimal(redaction.redacted_count as nat))
        + followed_by(
        "redacted_fields"@,
        if redaction.redacted_fields.len() == 0 {
            None
        } else {
            Some(seq!['['] + (texts_text(redaction.redacted_fields) + seq![']']))
        },
    )) + seq!['}']
}

/// A redaction is written as the number of fields and their names.
pub proof fn redactions_are_written(redaction: RedactionView)
    ensures
        rendered(redaction_json(redaction)) == redaction_text(redaction),
{
    reveal_strlit("redacted_count");
    reveal_strlit("redacted_fields");
    reveal_strlit("[");
    assert("["@ =~= seq!['[']);
    let names = redaction_fields();
    let fields = redaction.redacted_fields;
    let texts = fields.map_values(|name: Seq<char>| JsonView::Text(name));
    let list = if fields.len() == 0 {
        None
    } else {
        Some(JsonView::List(texts))
    };
    let values = seq![Some(JsonView::Number(redaction.redacted_count as u64)), list];
    first_field_is_written(names, values);
    further_field_is_written(names, values, 1);
    assert(names.take(2) =~= names && values.take(2) =~= values);
    objects_are_written(present(names, values));
    if fields.len() > 0 {
        text_items_are_written(fields, 0);
        assert(fields.skip(0) =~= fields);
    }
}

/// An entry is written as a JSON object of its fields, each behind its name, in their order:
/// schema, sequence, time, kind by its name, summary, identifiers, details in the order of their
/// names where there are any, and redaction. `pairs` gives the details in that order.
pub proof fn entries_are_written_field_by_field(
    entry: EntryView,
    kind: Seq<char>,
    pairs: Seq<(Seq<char>, Seq<char>)>,
)
    requires
        is_name_of(kind, entry.kind),
        forall|i: int, j: int|
            0 <= i < j < pairs.len() ==> reads_before(
                (#[trigger] pairs[i]).0,
                (#[trigger] pairs[j]).0,
            ),
        map_of(pairs) == entry.details,
    ensures
        row_text(entry) == seq!['{'] + (labelled("schema"@, json_string(entry.schema))
            + followed_by("sequence"@, Some(decimal(entry.sequence as nat))) + followed_by(
            "timestamp_ms"@,
            Some(decimal(entry.timestamp_ms as nat)),
        ) + followed_by("kind"@, Some(json_string(kind))) + followed_by(
            "summary"@,
            Some(json_string(entry.summary)),
        ) + followed_by("ids"@, Some(ids_text(entry.ids))) + followed_by(
            "details"@,
            if pairs.len() == 0 {
                None
            } else {
                Some(seq!['{'] + pairs_text(pairs) + seq!['}'])
            },
        ) + followed_by("redaction"@, Some(redaction_text(entry.redaction)))) + seq!['}'],
{
    reveal_strlit("schema");
    reveal_strlit("sequence");
    reveal_strlit("timestamp_ms");
    reveal_strlit("kind");
    reveal_strlit("summary");
    reveal_strlit("ids");
    reveal_strlit("details");
    reveal_strlit("redaction");
    let names = entry_fields();
    let values = seq![
        Some(JsonView::Text(entry.schema)),
        Some(JsonView::Number(entry.sequence)),
        Some(JsonView::Number(entry.timestamp_ms)),
        Some(JsonView::Text(kind_name(entry.kind))),
        Some(JsonView::Text(entry.summary)),
        Some(ids_json(entry.ids)),
        details_json(entry.details),
        Some(redaction_json(entry.redaction)),
    ];
    ids_are_written(entry.ids);
    details_are_written(entry.details, pairs);
    redactions_are_written(entry.redaction);
    first_field_is_written(names, values);
    further_field_is_written(names, values, 1);
    further_field_is_written(names, values, 2);
    further_field_is_written(names, values, 3);
    further_field_is_written(names, values, 4);
    further_field_is_written(names, values, 5);
    further_field_is_written(names, values, 6);
    further_field_is_written(names, values, 7);
    assert(names.take(8) =~= names && values.take(8) =~= values);
    objects_are_written(present(names, values));
}

/// The text of entries is that of each, one behind the other, with a line feed between each and
/// the next and none at the end.
pub proof fn entries_are_written_line_by_line(first: Seq<EntryView>, second: Seq<EntryView>)
    ensures
        jsonl_text(Seq::empty()) == Seq::<char>::empty(),
        forall|entry: EntryView| #[trigger] jsonl_text(seq![entry]) == row_text(entry),
        first.len() > 0 && second.len() > 0 ==> jsonl_text(first + second) == jsonl_text(first)
            + seq!['\n'] + jsonl_text(second),
{
    let none = Seq::<EntryView>::empty();
    assert(row_texts(none) =~= Seq::empty());
    assert forall|entry: EntryView| #[trigger] jsonl_text(seq![entry]) == row_text(entry) by {
        assert(row_texts(seq![entry]) =~= seq![row_text(entry)]);
    }
    line_feeds_stand_between_rows(row_texts(first), row_texts(second));
    assert(row_texts(first + second) =~= row_texts(first) + row_texts(second));
}

} // verus!
