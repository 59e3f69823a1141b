//! Field-level redaction of sensitive names and values.

use vstd::prelude::*;

use crate::sorted_map::{map_of, SortedMap};
use crate::text::{contains_part, lower, lowered, occurs_in};

verus! {

/// What stands in place of a redacted value.
pub const REDACTED: &'static str = "[REDACTED]";

/// Summary of field-level redaction applied before serialization.
#[derive(Debug, PartialEq, Eq)]
pub struct SwarmActivityRedaction {
    /// Number of fields redacted in this entry.
    pub redacted_count: usize,
    /// Field names that were redacted.
    pub redacted_fields: Vec<String>,
}

/// The model of a [`SwarmActivityRedaction`].
pub struct RedactionView {
    pub redacted_count: usize,
    pub redacted_fields: Seq<Seq<char>>,
}

impl View for SwarmActivityRedaction {
    type V = RedactionView;

    open spec fn view(&self) -> RedactionView {
        RedactionView {
            redacted_count: self.redacted_count,
            redacted_fields: self.redacted_fields@.map_values(|f: String| f@),
        }
    }
}

impl RedactionView {
    /// The summary of an entry in which nothing was redacted.
    pub open spec fn none() -> RedactionView {
        RedactionView { redacted_count: 0, redacted_fields: Seq::empty() }
    }
}

impl Default for SwarmActivityRedaction {
    fn default() -> (r: Self)
        ensures
            r@ == RedactionView::none(),
    {
        let r = SwarmActivityRedaction { redacted_count: 0, redacted_fields: Vec::new() };
        assert(r@.redacted_fields =~= Seq::<Seq<char>>::empty());
        r
    }
}

impl Clone for SwarmActivityRedaction {
    fn clone(&self) -> (r: Self)
        ensures
            r@ == self@,
    {
        let mut names: Vec<String> = Vec::new();
        let mut i: usize = 0;
        while i < self.redacted_fields.len()
            invariant
                i <= self.redacted_fields@.len(),
                names@.len() == i,
                forall|k: int| 0 <= k < i ==> (#[trigger] names@[k])@ == self.redacted_fields@[k]@,
            decreases self.redacted_fields@.len() - i,
        {
            names.push(self.redacted_fields[i].as_str().to_owned());
            i += 1;
        }
        let r = SwarmActivityRedaction {
            redacted_count: self.redacted_count,
            redacted_fields: names,
        };
        assert(r@.redacted_fields =~= self@.redacted_fields);
        r
    }
}

impl SwarmActivityRedaction {
    /// Notes that the given field was redacted.
    pub fn record(&mut self, field: &str)
        ensures
            final(self)@ == (RedactionView {
                redacted_count: old(self)@.redacted_count.saturating_add(1),
                redacted_fields: old(self)@.redacted_fields.push(field@),
            }),
    {
        self.redacted_count = self.redacted_count.saturating_add(1);
        self.redacted_fields.push(field.to_owned());
        assert(self@.redacted_fields =~= old(self)@.redacted_fields.push(field@));
    }
}

/// Whether a field name tells that its value is sensitive: one of the known fragments occurs in
/// it, in whatever ASCII case.
pub open spec fn names_secret(field: Seq<char>) -> bool {
    let name = lowered(field);
    ||| occurs_in(name, "authorization"@)
    ||| occurs_in(name, "bearer"@)
    ||| occurs_in(name, "body"@)
    ||| occurs_in(name, "cookie"@)
    ||| occurs_in(name, "key"@)
    ||| occurs_in(name, "password"@)
    ||| occurs_in(name, "prompt"@)
    ||| occurs_in(name, "secret"@)
    ||| occurs_in(name, "token"@)
    ||| occurs_in(name, "transcript"@)
}

/// Whether a value looks like a credential, in whatever ASCII case.
pub open spec fn holds_secret(value: Seq<char>) -> bool {
    let text = lowered(value);
    ||| occurs_in(text, "bearer "@)
    ||| occurs_in(text, "sk-"@)
    ||| occurs_in(text, "api_key"@)
    ||| occurs_in(text, "password="@)
    ||| occurs_in(text, "token="@)
}

/// Whether the value of a field is to be redacted.
pub open spec fn is_sensitive(field: Seq<char>, value: Seq<char>) -> bool {
    names_secret(field) || holds_secret(value)
}

/// The value of a field as the ledger keeps it.
pub open spec fn redacted(field: Seq<char>, value: Seq<char>) -> Seq<char> {
    if is_sensitive(field, value) {
        REDACTED@
    } else {
        value
    }
}

/// Named values as the ledger keeps them.
pub open spec fn redacted_pairs(pairs: Seq<(Seq<char>, Seq<char>)>) -> Seq<
    (Seq<char>, Seq<char>),
> {
    pairs.map_values(|p: (Seq<char>, Seq<char>)| (p.0, redacted(p.0, p.1)))
}

/// The names of the sensitive ones among the given values, in their order.
pub open spec fn sensitive_names(pairs: Seq<(Seq<char>, Seq<char>)>) -> Seq<Seq<char>>
    decreases pairs.len(),
{
    if pairs.len() == 0 {
        Seq::empty()
    } else {
        let rest = sensitive_names(pairs.drop_last());
        if is_sensitive(pairs.last().0, pairs.last().1) {
            rest.push(pairs.last().0)
        } else {
            rest
        }
    }
}

/// The redaction of an entry with the given summary and details: the summary counts as a field
/// of its own, ahead of the details.
pub open spec fn redaction_of(
    summary: Seq<char>,
    details: Seq<(Seq<char>, Seq<char>)>,
) -> RedactionView {
    let names = sensitive_names(seq![("summary"@, summary)] + details);
    RedactionView { redacted_count: names.len() as usize, redacted_fields: names }
}

/// The texts of a list of named values.
pub open spec fn text_pairs(pairs: Seq<(&str, &str)>) -> Seq<(Seq<char>, Seq<char>)> {
    pairs.map_values(|p: (&str, &str)| (p.0@, p.1@))
}

/// Whether a field name tells that its value is sensitive.
pub fn is_sensitive_field(field: &str) -> (r: bool)
    ensures
        r == names_secret(field@),
{
    let name = lower(field);
    let n = name.as_str();
    contains_part(n, "authorization") || contains_part(n, "bearer") || contains_part(n, "body")
        || contains_part(n, "cookie") || contains_part(n, "key") || contains_part(n, "password")
        || contains_part(n, "prompt") || contains_part(n, "secret") || contains_part(n, "token")
        || contains_part(n, "transcript")
}

/// Whether a value looks like a credential.
pub fn looks_sensitive(value: &str) -> (r: bool)
    ensures
        r == holds_secret(value@),
{
    let text = lower(value);
    let t = text.as_str();
    contains_part(t, "bearer ") || contains_part(t, "sk-") || contains_part(t, "api_key")
        || contains_part(t, "password=") || contains_part(t, "token=")
}

/// The value of a field as the ledger keeps it; a redacted field is noted in `redaction`.
pub fn redact_value(field: &str, value: &str, redaction: &mut SwarmActivityRedaction) -> (r: String)
    ensures
        r@ == redacted(field@, value@),
        final(redaction)@ == if is_sensitive(field@, value@) {
            RedactionView {
                redacted_count: old(redaction)@.redacted_count.saturating_add(1),
                redacted_fields: old(redaction)@.redacted_fields.push(field@),
            }
        } else {
            old(redaction)@
        },
{
    if is_sensitive_field(field) || looks_sensitive(value) {
        redaction.record(field);
        REDACTED.to_owned()
    } else {
        value.to_owned()
    }
}

/// The summary and the details of an event as the ledger keeps them, with what was redacted in
/// them. A later detail replaces an earlier one of its name.
pub fn redact_entry(summary: &str, details: &[(&str, &str)]) -> (r: (
    String,
    SortedMap<String, String>,
    SwarmActivityRedaction,
))
    ensures
        r.0@ == redacted("summary"@, summary@),
        r.1@ == map_of(redacted_pairs(text_pairs(details@))),
        r.2@ == redaction_of(summary@, text_pairs(details@)),
{
    let ghost pairs = text_pairs(details@);
    let ghost head = seq![("summary"@, summary@)];
    let mut redaction = SwarmActivityRedaction::default();
    let kept_summary = redact_value("summary", summary, &mut redaction);
    let mut kept: SortedMap<String, String> = SortedMap::new();
    let mut i: usize = 0;
    proof {
        reveal_with_fuel(sensitive_names, 2);
    }
    while i < details.len()
        invariant
            i <= details@.len(),
            pairs == text_pairs(details@),
            kept@ == map_of(redacted_pairs(pairs.take(i as int))),
            redaction@.redacted_fields == sensitive_names(head + pairs.take(i as int)),
            redaction@.redacted_count == redaction@.redacted_fields.len(),
        decreases details@.len() - i,
    {
        let (name, value) = details[i];
        let kept_value = redact_value(name, value, &mut redaction);
        kept.put(name.to_owned(), kept_value);
        // The number of redacted fields fits a `usize`, so that its count is exact.
        let _fields: usize = redaction.redacted_fields.len();
        proof {
            let now = pairs.take(i + 1);
            assert((head + now).drop_last() =~= head + pairs.take(i as int));
            assert(redacted_pairs(now).drop_last() =~= redacted_pairs(pairs.take(i as int)));
        }
        i += 1;
    }
    assert(pairs.take(details@.len() as int) =~= pairs);
    (kept_summary, kept, redaction)
}

} // verus!
