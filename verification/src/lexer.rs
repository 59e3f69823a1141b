//! JSON strings and values as `serde_json` writes and reads them.
//!
//! Everything here is taken on trust: each function makes one call into the crate, and its
//! contract says what that call is known to do.

use vstd::prelude::*;

use crate::json::{after_space, json_string, rendered, JsonView};

verus! {

/// The error type of `serde_json`.
#[verifier::external_type_specification]
#[verifier::external_body]
pub struct ExJsonError(serde_json::Error);

/// The JSON value that a text consists of, without the space around it, or the message of the
/// error where it is none: what `serde_json::from_str` reads as a raw value.
pub uninterp spec fn json_value(text: Seq<char>) -> Result<Seq<char>, Seq<char>>;

/// The string that a text starts with and what follows it: what the first step of a stream of
/// strings over a `serde_json::Deserializer` reads, and the text from its byte offset on.
pub uninterp spec fn first_json_string(text: Seq<char>) -> Option<(Seq<char>, Seq<char>)>;

/// The JSON value that a text starts with and what follows it: what the first step of a stream
/// of raw values over a `serde_json::Deserializer` reads, and the text from its byte offset on.
pub uninterp spec fn first_json_value(text: Seq<char>) -> Option<(Seq<char>, Seq<char>)>;

/// Whether a text is the message of an error: all that its `to_string` can give.
pub open spec fn says(error: serde_json::Error, message: Seq<char>) -> bool {
    forall|shown: String| #[trigger]
        vstd::string::to_string_from_display_ensures(&error, shown) ==> shown@ == message
}

/// Whether a text is the JSON text of a string and then `rest`.
pub open spec fn string_leads(text: Seq<char>, string: Seq<char>, rest: Seq<char>) -> bool {
    text == json_string(string) + rest
}

/// Whether a text is the JSON text of a value and then `rest`, which is empty or sets the value
/// apart from what comes next.
pub open spec fn value_leads(text: Seq<char>, value: JsonView, rest: Seq<char>) -> bool {
    &&& text == rendered(value) + rest
    &&& rest.len() > 0 ==> rest[0] == ',' || rest[0] == ']' || rest[0] == '}'
}

/// `serde_json::to_string` of a string. It never fails, and writes the string between quotation
/// marks with its characters escaped.
#[verifier::external_body]
pub(crate) fn write_string(text: &str) -> (r: Result<String, serde_json::Error>)
    ensures
        r is Ok,
        r->Ok_0@ == json_string(text@),
{
    serde_json::to_string(text)
}

/// `serde_json::from_str` of a raw value: checks that the text is one JSON value and nothing
/// more, and leaves out the space around it. It takes any value in its plain text, at any
/// depth, since raw values are passed over without recursion. What its error reads depends on
/// the text alone.
#[verifier::external_body]
pub(crate) fn read_value<'a>(text: &'a str) -> (r: Result<&'a str, serde_json::Error>)
    ensures
        r is Ok ==> json_value(text@) == Ok::<Seq<char>, Seq<char>>(r->Ok_0@),
        r is Err ==> json_value(text@) is Err && says(r->Err_0, json_value(text@)->Err_0),
        forall|value: JsonView|
            text@ == #[trigger] rendered(value) ==> r is Ok && r->Ok_0@ == text@,
{
    let value: &'a serde_json::value::RawValue = serde_json::from_str(text)?;
    Ok(value.get())
}

/// The first string of `serde_json::Deserializer::into_iter` over a text, and the text from the
/// `byte_offset` behind it. It gives back a string that `serde_json::to_string` wrote, whatever
/// follows it. What follows is shorter than the text. There is none where the text, after space,
/// does not start with a quotation mark.
#[verifier::external_body]
pub(crate) fn split_string<'a>(text: &'a str) -> (r: Option<(String, &'a str)>)
    ensures
        first_json_string(text@) == if r is Some {
            Some((r->Some_0.0@, r->Some_0.1@))
        } else {
            None
        },
        r is Some ==> r->Some_0.1@.len() < text@.len(),
        r is Some ==> after_space(text@).len() > 0 && after_space(text@)[0] == '"',
        forall|string: Seq<char>, rest: Seq<char>| #[trigger]
            string_leads(text@, string, rest) ==> r is Some && r->Some_0.0@ == string
                && r->Some_0.1@ == rest,
{
    let mut strings = serde_json::Deserializer::from_str(text).into_iter::<String>();
    match strings.next() {
        Some(Ok(string)) => Some((string, &text[strings.byte_offset()..])),
        Some(Err(_)) => None,
        None => None,
    }
}

/// The first raw value of `serde_json::Deserializer::into_iter` over a text, and the text from
/// the `byte_offset` behind it. It gives back a value in its plain text, at any depth, where the
/// end of the value can be told. What follows is shorter than the text. There is none where the
/// text, after space, starts with a closing bracket.
#[verifier::external_body]
pub(crate) fn split_value<'a>(text: &'a str) -> (r: Option<(&'a str, &'a str)>)
    ensures
        first_json_value(text@) == if r is Some {
            Some((r->Some_0.0@, r->Some_0.1@))
        } else {
            None
        },
        r is Some ==> r->Some_0.1@.len() < text@.len(),
        r is Some ==> after_space(text@).len() > 0 && after_space(text@)[0] != ']',
        forall|value: JsonView, rest: Seq<char>| #[trigger]
            value_leads(text@, value, rest) ==> r is Some && r->Some_0.0@ == rendered(value)
                && r->Some_0.1@ == rest,
{
    let mut values = serde_json::Deserializer::from_str(text).into_iter::<
        &'a serde_json::value::RawValue,
    >();
    match values.next() {
        Some(Ok(value)) => Some((value.get(), &text[values.byte_offset()..])),
        Some(Err(_)) => None,
        None => None,
    }
}

} // verus!
