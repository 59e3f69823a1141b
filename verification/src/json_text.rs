//! Reading and writing the text of JSON values.

use vstd::prelude::*;

use crate::json::{
    after_mark, after_space, is_json_space, item_views, json_string, list_model, member_views,
    object_model, rendered, rendered_items, rendered_members, understood, understood_items,
    understood_members, within_depth, Json, JsonView,
};
use crate::lexer::{split_string, split_value, string_leads, value_leads, write_string};
use crate::text::{
    all_digits, chars_of, decimal_is_exact, decimal_text, is_digit, read_digits, same_text,
};

verus! {

/// Skipping space one character at a time gives the text after all of it.
proof fn space_is_skipped(text: Seq<char>, at: int)
    requires
        0 <= at <= text.len(),
        forall|i: int| 0 <= i < at ==> is_json_space(#[trigger] text[i]),
        at < text.len() ==> !is_json_space(text[at]),
    ensures
        after_space(text) == text.skip(at),
    decreases at,
{
    if at > 0 {
        space_is_skipped(text.skip(1), at - 1);
    }
}

/// What follows a mark, where the text starts with it after space.
pub fn skip_mark<'a>(text: &'a str, mark: char) -> (r: Option<&'a str>)
    ensures
        after_mark(text@, mark) == match r {
            Some(rest) => Some(rest@),
            None => None,
        },
        r matches Some(rest) ==> rest@.len() < text@.len(),
{
    let n: usize = text.unicode_len();
    let mut i: usize = 0;
    while i < n && is_space(text.get_char(i))
        invariant
            i <= n == text@.len(),
            forall|k: int| 0 <= k < i ==> is_json_space(#[trigger] text@[k]),
        decreases n - i,
    {
        i += 1;
    }
    proof {
        space_is_skipped(text@, i as int);
    }
    if i < n && text.get_char(i) == mark {
        let rest = text.substring_char(i + 1, n);
        Some(rest)
    } else {
        None
    }
}

/// Whether JSON takes a character for space.
fn is_space(c: char) -> (r: bool)
    ensures
        r == is_json_space(c),
{
    c == ' ' || c == '\n' || c == '\r' || c == '\t'
}

/// Whether a mark ends the text, but for space ahead of it.
fn ends_with_mark(text: &str, mark: char) -> (r: bool)
    ensures
        r == (after_mark(text@, mark) == Some(Seq::<char>::empty())),
{
    match skip_mark(text, mark) {
        Some(rest) => {
            assert(rest@.len() == 0 ==> rest@ =~= Seq::<char>::empty());
            rest.is_empty()
        },
        None => false,
    }
}

/// A list with some items ahead of it.
spec fn led<A>(first: Seq<A>, others: Option<Seq<A>>) -> Option<Seq<A>> {
    match others {
        Some(rest) => Some(first + rest),
        None => None,
    }
}

/// The value that a JSON text stands for, arrays and objects to the given depth. The text of a
/// value within that depth stands for that value.
pub fn parse_json(text: &str, depth: u8) -> (r: Json)
    ensures
        r@ == understood(text@, depth as nat),
        forall|value: JsonView|
            text@ == #[trigger] rendered(value) && within_depth(value, depth as nat) ==> r@
                == value,
    decreases depth, 0int,
{
    proof {
        reveal_strlit("null");
        reveal_strlit("true");
        reveal_strlit("[");
        reveal_strlit("{");
        assert forall|value: JsonView| text@ == #[trigger] rendered(value) && !(value is Text) implies {
            &&& text@.len() > 0
            &&& text@[0] != '"'
            &&& after_space(text@) == text@
            &&& value is Number ==> all_digits(text@)
            &&& !(value is Number) ==> !is_digit(text@[0])
        } by {
            if let JsonView::Number(n) = value {
                decimal_is_exact(n as nat);
            }
        }
        assert forall|value: JsonView| text@ == #[trigger] rendered(value) && value is Text implies string_leads(
            text@,
            value->Text_0,
            Seq::empty(),
        ) by {}
    }
    if let Some((string, rest)) = split_string(text) {
        if rest.is_empty() {
            return Json::Text(string);
        }
    }
    if same_text(text, "null") {
        return Json::Null;
    }
    let chars = chars_of(text);
    let n: usize = chars.len();
    assert(chars@.subrange(0, n as int) =~= text@);
    if let Some(number) = read_digits(&chars, 0, n) {
        proof {
            assert forall|value: JsonView| text@ == #[trigger] rendered(value) implies value
                == JsonView::Number(number) by {
                if let JsonView::Number(m) = value {
                    decimal_is_exact(m as nat);
                }
            }
        }
        return Json::Number(number);
    }
    proof {
        assert forall|value: JsonView| text@ == #[trigger] rendered(value) implies !(value is Number) by {
            if let JsonView::Number(m) = value {
                decimal_is_exact(m as nat);
            }
        }
    }
    if depth == 0 || n == 0 {
        return Json::Other;
    }
    if chars[0] == '{' {
        let inner = text.substring_char(1, n);
        proof {
            assert forall|value: JsonView| text@ == #[trigger] rendered(value) implies value is Object
                && inner@ == rendered_members(value->Object_0, 0) by {}
        }
        match parse_members(inner, depth - 1) {
            Some(members) => {
                proof {
                    object_model(members);
                }
                return Json::Object(members);
            },
            None => {},
        }
        return Json::Other;
    }
    if chars[0] == '[' {
        let inner = text.substring_char(1, n);
        proof {
            assert forall|value: JsonView| text@ == #[trigger] rendered(value) implies value is List
                && inner@ == rendered_items(value->List_0, 0) by {}
        }
        match parse_items(inner, depth - 1) {
            Some(items) => {
                proof {
                    list_model(items);
                }
                return Json::List(items);
            },
            None => {},
        }
        return Json::Other;
    }
    Json::Other
}

/// Whether the values of all members lie within a depth.
spec fn members_within(members: Seq<(Seq<char>, JsonView)>, depth: nat) -> bool {
    forall|i: int| 0 <= i < members.len() ==> within_depth((#[trigger] members[i]).1, depth)
}

/// The text of everything behind a member.
spec fn behind_member(members: Seq<(Seq<char>, JsonView)>, at: int) -> Seq<char> {
    if at + 1 < members.len() {
        ","@ + rendered_members(members, at + 1)
    } else {
        "}"@
    }
}

/// The text of a member comes apart into its name, a colon, its value, and a comma or the
/// closing brace.
proof fn member_text_splits(members: Seq<(Seq<char>, JsonView)>, at: int)
    requires
        0 <= at <= members.len(),
    ensures
        at == members.len() ==> after_mark(rendered_members(members, at), '}') == Some(
            Seq::<char>::empty(),
        ) && rendered_members(members, at) == seq!['}'],
        at < members.len() ==> ({
            let behind = behind_member(members, at);
            let value_text = rendered(members[at].1) + behind;
            &&& string_leads(rendered_members(members, at), members[at].0, seq![':'] + value_text)
            &&& after_mark(seq![':'] + value_text, ':') == Some(value_text)
            &&& value_leads(value_text, members[at].1, behind)
            &&& at + 1 < members.len() ==> after_mark(behind, ',') == Some(
                rendered_members(members, at + 1),
            )
            &&& at + 1 == members.len() ==> after_mark(behind, ',') is None && after_mark(
                behind,
                '}',
            ) == Some(Seq::<char>::empty())
        }),
{
    reveal_strlit("}");
    reveal_strlit(":");
    reveal_strlit(",");
    if at < members.len() {
        let behind = behind_member(members, at);
        let value_text = rendered(members[at].1) + behind;
        assert(rendered_members(members, at) =~= json_string(members[at].0) + (seq![':']
            + value_text));
    }
}

/// The members of an object, from behind its opening brace on.
fn parse_members(text: &str, depth: u8) -> (r: Option<Vec<(String, Json)>>)
    ensures
        understood_members(text@, true, depth as nat) == match r {
            Some(members) => Some(member_views(members@)),
            None => None,
        },
        forall|members: Seq<(Seq<char>, JsonView)>|
            text@ == #[trigger] rendered_members(members, 0) && members_within(
                members,
                depth as nat,
            ) ==> (r matches Some(got) && member_views(got@) == members),
    decreases depth, 1int,
{
    let mut done: Vec<(String, Json)> = Vec::new();
    let mut rest = text;
    loop
        invariant
            understood_members(text@, true, depth as nat) == led(
                member_views(done@),
                understood_members(rest@, done@.len() == 0, depth as nat),
            ),
            forall|members: Seq<(Seq<char>, JsonView)>|
                text@ == #[trigger] rendered_members(members, 0) && members_within(
                    members,
                    depth as nat,
                ) ==> {
                    &&& done@.len() == 0 || done@.len() < members.len()
                    &&& member_views(done@) == members.take(done@.len() as int)
                    &&& rest@ == rendered_members(members, done@.len() as int)
                },
        decreases rest@.len(),
    {
        let ghost at = done@.len() as int;
        let ghost here = rest@;
        proof {
            assert forall|members: Seq<(Seq<char>, JsonView)>|
                text@ == #[trigger] rendered_members(members, 0) && members_within(
                    members,
                    depth as nat,
                ) implies (at == members.len() ==> here == seq!['}'] && after_mark(here, '}') == Some(
                Seq::<char>::empty(),
            )) && (at < members.len() ==> string_leads(
                here,
                members[at].0,
                seq![':'] + (rendered(members[at].1) + behind_member(members, at)),
            )) by {
                member_text_splits(members, at);
            }
        }
        match split_string(rest) {
            None => {
                if done.len() == 0 && ends_with_mark(rest, '}') {
                    return Some(done);
                }
                return None;
            },
            Some((name, after_name)) => {
                let value_text = match skip_mark(after_name, ':') {
                    Some(value_text) => value_text,
                    None => {
                        return None;
                    },
                };
                let (value, behind) = match split_value(value_text) {
                    Some(parts) => parts,
                    None => {
                        proof {
                            assert forall|members: Seq<(Seq<char>, JsonView)>|
                                text@ == #[trigger] rendered_members(members, 0) && members_within(
                                    members,
                                    depth as nat,
                                ) implies false by {
                                member_text_splits(members, at);
                            }
                        }
                        return None;
                    },
                };
                let parsed = parse_json(value, depth);
                done.push((name, parsed));
                proof {
                    assert forall|members: Seq<(Seq<char>, JsonView)>|
                        text@ == #[trigger] rendered_members(members, 0) && members_within(
                            members,
                            depth as nat,
                        ) implies at < members.len() && member_views(done@) == members.take(at + 1)
                        && behind@ == behind_member(members, at) by {
                        member_text_splits(members, at);
                    }
                }
                match skip_mark(behind, ',') {
                    Some(next) => {
                        proof {
                            assert forall|members: Seq<(Seq<char>, JsonView)>|
                                text@ == #[trigger] rendered_members(members, 0) && members_within(
                                    members,
                                    depth as nat,
                                ) implies at + 1 < members.len() && next@ == rendered_members(
                                members,
                                at + 1,
                            ) by {
                                member_text_splits(members, at);
                            }
                        }
                        rest = next;
                    },
                    None => {
                        let closed = ends_with_mark(behind, '}');
                        proof {
                            assert forall|members: Seq<(Seq<char>, JsonView)>|
                                text@ == #[trigger] rendered_members(members, 0) && members_within(
                                    members,
                                    depth as nat,
                                ) implies closed && member_views(done@) == members by {
                                member_text_splits(members, at);
                            }
                        }
                        if closed {
                            return Some(done);
                        }
                        return None;
                    },
                }
            },
        }
    }
}

/// Whether all items lie within a depth.
spec fn items_within(items: Seq<JsonView>, depth: nat) -> bool {
    forall|i: int| 0 <= i < items.len() ==> within_depth(#[trigger] items[i], depth)
}

/// The text of everything behind an item.
spec fn behind_item(items: Seq<JsonView>, at: int) -> Seq<char> {
    if at + 1 < items.len() {
        ","@ + rendered_items(items, at + 1)
    } else {
        "]"@
    }
}

/// The text of an item comes apart into its value, and a comma or the closing bracket.
proof fn item_text_splits(items: Seq<JsonView>, at: int)
    requires
        0 <= at <= items.len(),
    ensures
        at == items.len() ==> after_mark(rendered_items(items, at), ']') == Some(
            Seq::<char>::empty(),
        ) && rendered_items(items, at) == seq![']'],
        at < items.len() ==> ({
            let behind = behind_item(items, at);
            &&& value_leads(rendered_items(items, at), items[at], behind)
            &&& at + 1 < items.len() ==> after_mark(behind, ',') == Some(
                rendered_items(items, at + 1),
            )
            &&& at + 1 == items.len() ==> after_mark(behind, ',') is None && after_mark(
                behind,
                ']',
            ) == Some(Seq::<char>::empty())
        }),
{
    reveal_strlit("]");
    reveal_strlit(",");
}

/// The items of an array, from behind its opening bracket on.
fn parse_items(text: &str, depth: u8) -> (r: Option<Vec<Json>>)
    ensures
        understood_items(text@, true, depth as nat) == match r {
            Some(items) => Some(item_views(items@)),
            None => None,
        },
        forall|items: Seq<JsonView>|
            text@ == #[trigger] rendered_items(items, 0) && items_within(items, depth as nat) ==> (
            r matches Some(got) && item_views(got@) == items),
    decreases depth, 1int,
{
    let mut done: Vec<Json> = Vec::new();
    let mut rest = text;
    loop
        invariant
            understood_items(text@, true, depth as nat) == led(
                item_views(done@),
                understood_items(rest@, done@.len() == 0, depth as nat),
            ),
            forall|items: Seq<JsonView>|
                text@ == #[trigger] rendered_items(items, 0) && items_within(
                    items,
                    depth as nat,
                ) ==> {
                    &&& done@.len() == 0 || done@.len() < items.len()
                    &&& item_views(done@) == items.take(done@.len() as int)
                    &&& rest@ == rendered_items(items, done@.len() as int)
                },
        decreases rest@.len(),
    {
        let ghost at = done@.len() as int;
        let ghost here = rest@;
        proof {
            assert forall|items: Seq<JsonView>|
                text@ == #[trigger] rendered_items(items, 0) && items_within(
                    items,
                    depth as nat,
                ) implies (at == items.len() ==> here == seq![']'] && after_mark(here, ']') == Some(
                Seq::<char>::empty(),
            )) && (at < items.len() ==> value_leads(here, items[at], behind_item(items, at))) by {
                item_text_splits(items, at);
            }
        }
        match split_value(rest) {
            None => {
                if done.len() == 0 && ends_with_mark(rest, ']') {
                    return Some(done);
                }
                return None;
            },
            Some((value, behind)) => {
                let parsed = parse_json(value, depth);
                done.push(parsed);
                proof {
                    assert forall|items: Seq<JsonView>|
                        text@ == #[trigger] rendered_items(items, 0) && items_within(
                            items,
                            depth as nat,
                        ) implies at < items.len() && item_views(done@) == items.take(at + 1)
                        && behind@ == behind_item(items, at) by {
                        item_text_splits(items, at);
                    }
                }
                match skip_mark(behind, ',') {
                    Some(next) => {
                        proof {
                            assert forall|items: Seq<JsonView>|
                                text@ == #[trigger] rendered_items(items, 0) && items_within(
                                    items,
                                    depth as nat,
                                ) implies at + 1 < items.len() && next@ == rendered_items(
                                items,
                                at + 1,
                            ) by {
                                item_text_splits(items, at);
                            }
                        }
                        rest = next;
                    },
                    None => {
                        let closed = ends_with_mark(behind, ']');
                        proof {
                            assert forall|items: Seq<JsonView>|
                                text@ == #[trigger] rendered_items(items, 0) && items_within(
                                    items,
                                    depth as nat,
                                ) implies closed && item_views(done@) == items by {
                                item_text_splits(items, at);
                            }
                        }
                        if closed {
                            return Some(done);
                        }
                        return None;
                    },
                }
            },
        }
    }
}

/// Appends the JSON text of a value.
///
/// # Errors
///
/// Returns a serde error if a string cannot be serialized.
pub fn write_json(out: &mut String, value: &Json) -> (r: Result<(), serde_json::Error>)
    ensures
        r is Ok,
        final(out)@ == old(out)@ + rendered(value@),
    decreases value,
{
    proof {
        reveal_strlit("null");
        reveal_strlit("true");
    }
    match value {
        Json::Null => {
            out.append("null");
        },
        Json::Text(text) => {
            let written = write_string(text.as_str())?;
            out.append(written.as_str());
        },
        Json::Number(n) => {
            out.append(decimal_text(*n).as_str());
        },
        Json::List(items) => {
            let ghost start = out@;
            let ghost all = item_views(items@);
            proof {
                list_model(*items);
                reveal_strlit("[");
                reveal_strlit(",");
                reveal_strlit("]");
            }
            out.append("[");
            let mut i: usize = 0;
            while i < items.len()
                invariant
                    i <= items@.len(),
                    all == item_views(items@),
                    value@ == JsonView::List(all),
                    *value == Json::List(*items),
                    out@ + if i == 0 {
                        rendered_items(all, 0)
                    } else {
                        behind_item(all, i - 1)
                    } == start + rendered(value@),
                decreases items@.len() - i,
            {
                proof {
                    reveal_strlit(",");
                }
                if i > 0 {
                    out.append(",");
                }
                write_json(out, &items[i])?;
                i += 1;
            }
            out.append("]");
        },
        Json::Object(members) => {
            let ghost start = out@;
            let ghost all = member_views(members@);
            proof {
                object_model(*members);
                reveal_strlit("{");
                reveal_strlit(",");
                reveal_strlit(":");
                reveal_strlit("}");
            }
            out.append("{");
            let mut i: usize = 0;
            while i < members.len()
                invariant
                    i <= members@.len(),
                    all == member_views(members@),
                    value@ == JsonView::Object(all),
                    *value == Json::Object(*members),
                    out@ + if i == 0 {
                        rendered_members(all, 0)
                    } else {
                        behind_member(all, i - 1)
                    } == start + rendered(value@),
                decreases members@.len() - i,
            {
                proof {
                    reveal_strlit(",");
                    reveal_strlit(":");
                }
                if i > 0 {
                    out.append(",");
                }
                let name = write_string(members[i].0.as_str())?;
                out.append(name.as_str());
                out.append(":");
                write_json(out, &members[i].1)?;
                i += 1;
            }
            out.append("}");
        },
        Json::Other => {
            out.append("true");
        },
    }
    Ok(())
}

} // verus!
