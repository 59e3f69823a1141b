//! JSON values of the kind that ledger rows are made of, and their text.

use vstd::prelude::*;

use crate::lexer::{first_json_string, first_json_value};
use crate::text::{all_digits, decimal, decimal_is_exact, digit_char, number_of};

verus! {

/// A JSON value, as far as a ledger row can make use of it.
#[derive(Debug, PartialEq, Eq)]
pub enum Json {
    /// `null`.
    Null,
    /// A string.
    Text(String),
    /// A whole number from zero up to the greatest `u64`.
    Number(u64),
    /// An array.
    List(Vec<Json>),
    /// An object, its members in the order of the text, repeated names included.
    Object(Vec<(String, Json)>),
    /// Any other value.
    Other,
}

/// The model of a [`Json`].
#[verifier::ext_equal]
pub enum JsonView {
    Null,
    Text(Seq<char>),
    Number(u64),
    List(Seq<JsonView>),
    Object(Seq<(Seq<char>, JsonView)>),
    Other,
}

impl View for Json {
    type V = JsonView;

    open spec fn view(&self) -> JsonView
        decreases self,
    {
        match self {
            Json::Null => JsonView::Null,
            Json::Text(text) => JsonView::Text(text@),
            Json::Number(n) => JsonView::Number(*n),
            Json::List(items) => JsonView::List(
                Seq::new(
                    items@.len(),
                    |i: int|
                        if 0 <= i < items@.len() {
                            items@[i].view()
                        } else {
                            JsonView::Other
                        },
                ),
            ),
            Json::Object(members) => JsonView::Object(
                Seq::new(
                    members@.len(),
                    |i: int|
                        if 0 <= i < members@.len() {
                            (members@[i].0@, members@[i].1.view())
                        } else {
                            (Seq::empty(), JsonView::Other)
                        },
                ),
            ),
            Json::Other => JsonView::Other,
        }
    }
}

/// The models of a list of values.
pub open spec fn item_views(items: Seq<Json>) -> Seq<JsonView> {
    items.map_values(|item: Json| item@)
}

/// The models of a list of named values.
pub open spec fn member_views(members: Seq<(String, Json)>) -> Seq<(Seq<char>, JsonView)> {
    members.map_values(|member: (String, Json)| (member.0@, member.1@))
}

/// The model of an array is that of its items.
pub proof fn list_model(items: Vec<Json>)
    ensures
        Json::List(items)@ == JsonView::List(item_views(items@)),
{
    reveal_with_fuel(<Json as View>::view, 2);
    let list = Json::List(items);
    assert(list@->List_0 =~= item_views(items@));
}

/// The model of an object is that of its members.
pub proof fn object_model(members: Vec<(String, Json)>)
    ensures
        Json::Object(members)@ == JsonView::Object(member_views(members@)),
{
    reveal_with_fuel(<Json as View>::view, 2);
    let object = Json::Object(members);
    assert(object@->Object_0 =~= member_views(members@));
}

/// A hexadecimal digit, in small letters.
pub open spec fn hex_digit(n: u32) -> char {
    if n < 10 {
        digit_char(n as nat)
    } else if n == 10 {
        'a'
    } else if n == 11 {
        'b'
    } else if n == 12 {
        'c'
    } else if n == 13 {
        'd'
    } else if n == 14 {
        'e'
    } else {
        'f'
    }
}

/// A character as it stands in a JSON string: quotation marks, backslashes and control characters
/// below the space behind a backslash, all others bare.
pub open spec fn escaped_char(c: char) -> Seq<char> {
    if c == '"' || c == '\\' {
        seq!['\\', c]
    } else if c == '\u{8}' {
        seq!['\\', 'b']
    } else if c == '\t' {
        seq!['\\', 't']
    } else if c == '\n' {
        seq!['\\', 'n']
    } else if c == '\u{c}' {
        seq!['\\', 'f']
    } else if c == '\r' {
        seq!['\\', 'r']
    } else if (c as u32) < 32 {
        seq!['\\', 'u', '0', '0', hex_digit(c as u32 / 16), hex_digit(c as u32 % 16)]
    } else {
        seq![c]
    }
}

/// The characters of a text as they stand in a JSON string.
pub open spec fn escaped(text: Seq<char>) -> Seq<char>
    decreases text.len(),
{
    if text.len() == 0 {
        Seq::empty()
    } else {
        escaped(text.drop_last()) + escaped_char(text.last())
    }
}

/// The JSON text of a string.
pub open spec fn json_string(text: Seq<char>) -> Seq<char> {
    seq!['"'] + escaped(text) + seq!['"']
}

/// A character as it stands in a JSON string is no control character below the space.
proof fn escaped_char_is_printable(c: char)
    ensures
        printable(escaped_char(c)),
{
    let code = c as u32;
    if code < 32 {
        assert(code / 16 < 2 && code % 16 < 16);
        assert(hex_digit(code / 16) >= '0');
        assert(hex_digit(code % 16) >= '0');
    }
}

/// The JSON text of a string holds no control character below the space.
pub proof fn json_string_is_printable(text: Seq<char>)
    ensures
        printable(escaped(text)),
        printable(json_string(text)),
    decreases text.len(),
{
    if text.len() > 0 {
        json_string_is_printable(text.drop_last());
        escaped_char_is_printable(text.last());
    }
}

/// Whether a text holds no control character below the space, line breaks among them.
pub open spec fn printable(text: Seq<char>) -> bool {
    forall|i: int| 0 <= i < text.len() ==> ' ' <= #[trigger] text[i]
}

/// The JSON text of a value, without space. A value of no use to a ledger row stands as `true`.
pub open spec fn rendered(value: JsonView) -> Seq<char>
    decreases value, 0int,
{
    match value {
        JsonView::Null => "null"@,
        JsonView::Text(text) => json_string(text),
        JsonView::Number(n) => decimal(n as nat),
        JsonView::List(items) => "["@ + rendered_items(items, 0),
        JsonView::Object(members) => "{"@ + rendered_members(members, 0),
        JsonView::Other => "true"@,
    }
}

/// The JSON text of the items of an array from the given one on, and the closing bracket.
pub open spec fn rendered_items(items: Seq<JsonView>, from: int) -> Seq<char>
    decreases items, items.len() - from,
{
    if 0 <= from < items.len() {
        rendered(items[from]) + if from + 1 < items.len() {
            ","@ + rendered_items(items, from + 1)
        } else {
            "]"@
        }
    } else {
        "]"@
    }
}

/// The JSON text of the members of an object from the given one on, and the closing brace.
pub open spec fn rendered_members(members: Seq<(Seq<char>, JsonView)>, from: int) -> Seq<char>
    decreases members, members.len() - from,
{
    if 0 <= from < members.len() {
        json_string(members[from].0) + ":"@ + rendered(members[from].1) + if from + 1
            < members.len() {
            ","@ + rendered_members(members, from + 1)
        } else {
            "}"@
        }
    } else {
        "}"@
    }
}

/// The JSON text of a value holds no control character below the space.
pub proof fn rendered_is_printable(value: JsonView)
    ensures
        printable(rendered(value)),
    decreases value, 0int,
{
    reveal_strlit("null");
    reveal_strlit("[");
    reveal_strlit("{");
    reveal_strlit("true");
    match value {
        JsonView::Text(text) => json_string_is_printable(text),
        JsonView::Number(n) => decimal_is_exact(n as nat),
        JsonView::List(items) => rendered_items_are_printable(items, 0),
        JsonView::Object(members) => rendered_members_are_printable(members, 0),
        _ => {},
    }
}

/// The JSON text of the items of an array holds no control character below the space.
proof fn rendered_items_are_printable(items: Seq<JsonView>, from: int)
    ensures
        printable(rendered_items(items, from)),
    decreases items, items.len() - from,
{
    reveal_strlit(",");
    reveal_strlit("]");
    if 0 <= from < items.len() {
        rendered_is_printable(items[from]);
        rendered_items_are_printable(items, from + 1);
    }
}

/// The JSON text of the members of an object holds no control character below the space.
proof fn rendered_members_are_printable(members: Seq<(Seq<char>, JsonView)>, from: int)
    ensures
        printable(rendered_members(members, from)),
    decreases members, members.len() - from,
{
    reveal_strlit(":");
    reveal_strlit(",");
    reveal_strlit("}");
    if 0 <= from < members.len() {
        json_string_is_printable(members[from].0);
        rendered_is_printable(members[from].1);
        rendered_members_are_printable(members, from + 1);
    }
}

/// Whether arrays and objects in a value lie no deeper than the given number of levels.
pub open spec fn within_depth(value: JsonView, depth: nat) -> bool
    decreases depth,
{
    match value {
        JsonView::List(items) => depth > 0 && forall|i: int|
            0 <= i < items.len() ==> within_depth(#[trigger] items[i], (depth - 1) as nat),
        JsonView::Object(members) => depth > 0 && forall|i: int|
            0 <= i < members.len() ==> within_depth((#[trigger] members[i]).1, (depth - 1) as nat),
        _ => true,
    }
}

/// Whether JSON takes a character for space between its parts.
pub open spec fn is_json_space(c: char) -> bool {
    c == ' ' || c == '\n' || c == '\r' || c == '\t'
}

/// The text without the space that it starts with.
pub open spec fn after_space(text: Seq<char>) -> Seq<char>
    decreases text.len(),
{
    if text.len() > 0 && is_json_space(text[0]) {
        after_space(text.skip(1))
    } else {
        text
    }
}

/// What follows a mark, where the text starts with it after space.
pub open spec fn after_mark(text: Seq<char>, mark: char) -> Option<Seq<char>> {
    let rest = after_space(text);
    if rest.len() > 0 && rest[0] == mark {
        Some(rest.skip(1))
    } else {
        None
    }
}

/// The value that a JSON text stands for. Arrays and objects below the given depth, and values
/// that cannot be told, are none that a ledger row can make use of.
pub open spec fn understood(text: Seq<char>, depth: nat) -> JsonView
    decreases depth, 0int, 0int,
{
    match first_json_string(text) {
        Some((string, rest)) if rest.len() == 0 => JsonView::Text(string),
        _ => if text == "null"@ {
            JsonView::Null
        } else if text.len() > 0 && all_digits(text) && number_of(text) <= u64::MAX {
            JsonView::Number(number_of(text) as u64)
        } else if depth > 0 && text.len() > 0 && text[0] == '{' {
            match understood_members(text.skip(1), true, (depth - 1) as nat) {
                Some(members) => JsonView::Object(members),
                None => JsonView::Other,
            }
        } else if depth > 0 && text.len() > 0 && text[0] == '[' {
            match understood_items(text.skip(1), true, (depth - 1) as nat) {
                Some(items) => JsonView::List(items),
                None => JsonView::Other,
            }
        } else {
            JsonView::Other
        },
    }
}

/// The members of an object, up to the closing brace that ends the text. None may stand there
/// only at the start.
pub open spec fn understood_members(text: Seq<char>, at_start: bool, depth: nat) -> Option<
    Seq<(Seq<char>, JsonView)>,
>
    decreases depth, 1int, text.len(),
{
    match first_json_string(text) {
        None => if at_start && after_mark(text, '}') == Some(Seq::<char>::empty()) {
            Some(Seq::empty())
        } else {
            None
        },
        Some((name, after_name)) => match after_mark(after_name, ':') {
            None => None,
            Some(value_text) => match first_json_value(value_text) {
                None => None,
                Some((value, rest)) => {
                    let member = seq![(name, understood(value, depth))];
                    match after_mark(rest, ',') {
                        None => if after_mark(rest, '}') == Some(Seq::<char>::empty()) {
                            Some(member)
                        } else {
                            None
                        },
                        Some(next) => if next.len() < text.len() {
                            match understood_members(next, false, depth) {
                                Some(others) => Some(member + others),
                                None => None,
                            }
                        } else {
                            None
                        },
                    }
                },
            },
        },
    }
}

/// The items of an array, up to the closing bracket that ends the text. None may stand there
/// only at the start.
pub open spec fn understood_items(text: Seq<char>, at_start: bool, depth: nat) -> Option<
    Seq<JsonView>,
>
    decreases depth, 1int, text.len(),
{
    match first_json_value(text) {
        None => if at_start && after_mark(text, ']') == Some(Seq::<char>::empty()) {
            Some(Seq::empty())
        } else {
            None
        },
        Some((value, rest)) => {
            let item = seq![understood(value, depth)];
            match after_mark(rest, ',') {
                None => if after_mark(rest, ']') == Some(Seq::<char>::empty()) {
                    Some(item)
                } else {
                    None
                },
                Some(next) => if next.len() < text.len() {
                    match understood_items(next, false, depth) {
                        Some(others) => Some(item + others),
                        None => None,
                    }
                } else {
                    None
                },
            }
        },
    }
}

} // verus!
