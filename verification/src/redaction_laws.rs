//! What becomes of the sensitive fields of every event, and of its other fields.

use vstd::prelude::*;

use crate::entry::{IdsView, SwarmActivityKind};
use crate::ledger::entry_at;
use crate::redaction::{
    holds_secret, is_sensitive, names_secret, redacted, redacted_pairs, sensitive_names,
};
use crate::sorted_map::{map_of, map_of_binds};
use crate::text::{lower_char, lowered, occurs_in, stands_at};

verus! {

/// Whether a character is a small letter or another sign, or the capital of that letter.
pub open spec fn is_letter_of(c: char, sign: char) -> bool {
    c == sign || (65 <= c as u32 <= 90 && c as u32 + 32 == sign as u32)
}

/// Whether a piece of text spells a word, in whatever case.
pub open spec fn spells(piece: Seq<char>, word: Seq<char>) -> bool {
    &&& piece.len() == word.len()
    &&& forall|i: int| 0 <= i < word.len() ==> is_letter_of(#[trigger] piece[i], word[i])
}

/// Whether a word stands anywhere in a text, in whatever case.
pub open spec fn mentions(text: Seq<char>, word: Seq<char>) -> bool {
    exists|at: int|
        0 <= at <= text.len() - word.len() && spells(
            #[trigger] text.subrange(at, at + word.len()),
            word,
        )
}

/// Whether a word is free of capitals.
spec fn is_small(word: Seq<char>) -> bool {
    forall|i: int| 0 <= i < word.len() ==> !(65 <= (#[trigger] word[i]) as u32 <= 90)
}

/// A character becomes a sign that is no capital where it is that sign or its capital.
pub proof fn letters_become_small(c: char, sign: char)
    requires
        !(65 <= sign as u32 <= 90),
    ensures
        lower_char(c) == sign <==> is_letter_of(c, sign),
{
    let code = c as u32;
    if 65 <= code <= 90 {
        assert('A' <= c <= 'Z');
        assert(lower_char(c) as u32 == code + 32);
        if code + 32 == sign as u32 {
            assert(lower_char(c) == sign);
        }
    }
}

/// A word without capitals stands in the small letters of a text where the text mentions it.
proof fn mentioning_is_occurring(text: Seq<char>, word: Seq<char>)
    requires
        is_small(word),
    ensures
        mentions(text, word) == occurs_in(lowered(text), word),
{
    let small = lowered(text);
    let n = word.len() as int;
    assert forall|at: int| 0 <= at <= text.len() - n implies stands_at(small, word, at) == spells(
        #[trigger] text.subrange(at, at + n),
        word,
    ) by {
        let piece = text.subrange(at, at + n);
        assert forall|i: int| 0 <= i < n implies (small.subrange(at, at + n)[i] == word[i])
            == is_letter_of(#[trigger] piece[i], word[i]) by {
            letters_become_small(text[at + i], word[i]);
            assert(small[at + i] == lower_char(text[at + i]));
        }
        if spells(piece, word) {
            assert forall|i: int| 0 <= i < n implies #[trigger] small.subrange(at, at + n)[i]
                == word[i] by {
                assert(is_letter_of(piece[i], word[i]));
            }
            assert(small.subrange(at, at + n) =~= word);
        }
        if stands_at(small, word, at) {
            assert forall|i: int| 0 <= i < n implies is_letter_of(#[trigger] piece[i], word[i]) by {
                assert(small.subrange(at, at + n)[i] == word[i]);
            }
        }
    }
    if mentions(text, word) {
        let at = choose|at: int|
            0 <= at <= text.len() - word.len() && spells(
                #[trigger] text.subrange(at, at + word.len()),
                word,
            );
        assert(stands_at(small, word, at));
    }
    if occurs_in(small, word) {
        let at = choose|at: int| #[trigger] stands_at(small, word, at);
        assert(spells(text.subrange(at, at + n), word));
    }
}

/// A text mentions what stands anywhere in it.
proof fn pieces_are_mentioned(before: Seq<char>, piece: Seq<char>, after: Seq<char>, word: Seq<char>)
    requires
        spells(piece, word),
    ensures
        mentions(before + piece + after, word),
{
    let text = before + piece + after;
    let at = before.len() as int;
    assert(text.subrange(at, at + word.len()) =~= piece);
}

/// Whether a word in a name tells that the value is sensitive.
pub open spec fn tells_in_names(word: Seq<char>) -> bool {
    ||| word == "authorization"@
    ||| word == "bearer"@
    ||| word == "body"@
    ||| word == "cookie"@
    ||| word == "key"@
    ||| word == "password"@
    ||| word == "prompt"@
    ||| word == "secret"@
    ||| word == "token"@
    ||| word == "transcript"@
}

/// Whether a word in a value tells that it is sensitive.
pub open spec fn tells_in_values(word: Seq<char>) -> bool {
    ||| word == "bearer "@
    ||| word == "sk-"@
    ||| word == "api_key"@
    ||| word == "password="@
    ||| word == "token="@
}

/// No word that tells a sensitive field has a capital.
proof fn words_are_small(word: Seq<char>)
    requires
        tells_in_names(word) || tells_in_values(word),
    ensures
        is_small(word),
{
    reveal_strlit("authorization");
    reveal_strlit("bearer");
    reveal_strlit("body");
    reveal_strlit("cookie");
    reveal_strlit("key");
    reveal_strlit("password");
    reveal_strlit("prompt");
    reveal_strlit("secret");
    reveal_strlit("token");
    reveal_strlit("transcript");
    reveal_strlit("bearer ");
    reveal_strlit("sk-");
    reveal_strlit("api_key");
    reveal_strlit("password=");
    reveal_strlit("token=");
}

/// A name is sensitive where it mentions one of the words that tell it, and only there.
pub proof fn names_are_told_by_words(name: Seq<char>)
    ensures
        names_secret(name) <==> exists|word: Seq<char>| #[trigger]
            mentions(name, word) && tells_in_names(word),
{
    assert forall|word: Seq<char>| tells_in_names(word) implies #[trigger] mentions(name, word)
        == occurs_in(lowered(name), word) by {
        words_are_small(word);
        mentioning_is_occurring(name, word);
    }
    if names_secret(name) {
        let at_work = |word: Seq<char>| tells_in_names(word) && mentions(name, word);
        assert(at_work("authorization"@) || at_work("bearer"@) || at_work("body"@) || at_work(
            "cookie"@,
        ) || at_work("key"@) || at_work("password"@) || at_work("prompt"@) || at_work("secret"@)
            || at_work("token"@) || at_work("transcript"@));
    }
}

/// A value is sensitive in itself where it mentions one of the words that tell it, and only
/// there.
pub proof fn values_are_told_by_words(value: Seq<char>)
    ensures
        holds_secret(value) <==> exists|word: Seq<char>| #[trigger]
            mentions(value, word) && tells_in_values(word),
{
    assert forall|word: Seq<char>| tells_in_values(word) implies #[trigger] mentions(value, word)
        == occurs_in(lowered(value), word) by {
        words_are_small(word);
        mentioning_is_occurring(value, word);
    }
    if holds_secret(value) {
        let at_work = |word: Seq<char>| tells_in_values(word) && mentions(value, word);
        assert(at_work("bearer "@) || at_work("sk-"@) || at_work("api_key"@) || at_work(
            "password="@,
        ) || at_work("token="@));
    }
}

/// Of named values, the last of a name holds.
pub proof fn last_of_its_name_holds<A, B>(pairs: Seq<(A, B)>, i: int)
    requires
        0 <= i < pairs.len(),
        forall|j: int| i < j < pairs.len() ==> (#[trigger] pairs[j]).0 != pairs[i].0,
    ensures
        map_of(pairs).contains_key(pairs[i].0),
        map_of(pairs)[pairs[i].0] == pairs[i].1,
    decreases pairs.len(),
{
    if i < pairs.len() - 1 {
        let init = pairs.drop_last();
        assert(init[i] == pairs[i]);
        assert forall|j: int| i < j < init.len() implies (#[trigger] init[j]).0 != init[i].0 by {
            assert(init[j] == pairs[j]);
        }
        last_of_its_name_holds(init, i);
    }
}

/// The last place at which a name stands.
proof fn last_place(pairs: Seq<(Seq<char>, Seq<char>)>, name: Seq<char>, i: int) -> (last: int)
    requires
        0 <= i < pairs.len(),
        pairs[i].0 == name,
    ensures
        i <= last < pairs.len(),
        pairs[last].0 == name,
        forall|j: int| last < j < pairs.len() ==> (#[trigger] pairs[j]).0 != name,
    decreases pairs.len() - i,
{
    if exists|j: int| i < j < pairs.len() && (#[trigger] pairs[j]).0 == name {
        let j = choose|j: int| i < j < pairs.len() && (#[trigger] pairs[j]).0 == name;
        last_place(pairs, name, j)
    } else {
        i
    }
}

/// A detail that comes last of its name is kept as such.
proof fn detail_is_kept(details: Seq<(Seq<char>, Seq<char>)>, i: int)
    requires
        0 <= i < details.len(),
        forall|j: int| i < j < details.len() ==> (#[trigger] details[j]).0 != details[i].0,
    ensures
        map_of(redacted_pairs(details)).contains_key(details[i].0),
        map_of(redacted_pairs(details))[details[i].0] == redacted(details[i].0, details[i].1),
{
    let kept = redacted_pairs(details);
    assert forall|j: int| i < j < kept.len() implies (#[trigger] kept[j]).0 != kept[i].0 by {
        assert(details[j].0 == kept[j].0);
    }
    last_of_its_name_holds(kept, i);
}

/// A detail is redacted for its name: where one of the words that tell a sensitive field stands
/// anywhere in the name, in whatever case, the entry keeps `[REDACTED]` under it, whatever the
/// value.
pub proof fn details_are_redacted_for_their_names(
    place: int,
    timestamp_ms: u64,
    kind: SwarmActivityKind,
    ids: IdsView,
    summary: Seq<char>,
    details: Seq<(Seq<char>, Seq<char>)>,
    i: int,
    before: Seq<char>,
    piece: Seq<char>,
    after: Seq<char>,
    word: Seq<char>,
)
    requires
        0 <= i < details.len(),
        details[i].0 == before + piece + after,
        spells(piece, word),
        word == "authorization"@ || word == "bearer"@ || word == "body"@ || word == "cookie"@
            || word == "key"@ || word == "password"@ || word == "prompt"@ || word == "secret"@
            || word == "token"@ || word == "transcript"@,
    ensures
        ({
            let entry = entry_at(place, timestamp_ms, kind, ids, summary, details);
            &&& entry.details.contains_key(before + piece + after)
            &&& entry.details[before + piece + after] == "[REDACTED]"@
            &&& entry.redaction.redacted_fields.contains(before + piece + after)
        }),
{
    let name = before + piece + after;
    pieces_are_mentioned(before, piece, after, word);
    names_are_told_by_words(name);
    assert(mentions(name, word) && tells_in_names(word));
    let last = last_place(details, name, i);
    detail_is_kept(details, last);
    crate::ledger_laws::redaction_names_sensitive_fields(seq![("summary"@, summary)] + details, name);
    assert((seq![("summary"@, summary)] + details)[i + 1] == details[i]);
}

/// A detail is redacted for its value: where one of the words that tell a sensitive value stands
/// anywhere in it, in whatever case, the entry keeps `[REDACTED]` in its place, whatever the
/// name.
pub proof fn details_are_redacted_for_their_values(
    place: int,
    timestamp_ms: u64,
    kind: SwarmActivityKind,
    ids: IdsView,
    summary: Seq<char>,
    details: Seq<(Seq<char>, Seq<char>)>,
    i: int,
    before: Seq<char>,
    piece: Seq<char>,
    after: Seq<char>,
    word: Seq<char>,
)
    requires
        0 <= i < details.len(),
        forall|j: int| i < j < details.len() ==> (#[trigger] details[j]).0 != details[i].0,
        details[i].1 == before + piece + after,
        spells(piece, word),
        word == "bearer "@ || word == "sk-"@ || word == "api_key"@ || word == "password="@ || word
            == "token="@,
    ensures
        ({
            let entry = entry_at(place, timestamp_ms, kind, ids, summary, details);
            &&& entry.details.contains_key(details[i].0)
            &&& entry.details[details[i].0] == "[REDACTED]"@
            &&& entry.redaction.redacted_fields.contains(details[i].0)
        }),
{
    let value = before + piece + after;
    pieces_are_mentioned(before, piece, after, word);
    values_are_told_by_words(value);
    assert(mentions(value, word) && tells_in_values(word));
    detail_is_kept(details, i);
    crate::ledger_laws::redaction_names_sensitive_fields(
        seq![("summary"@, summary)] + details,
        details[i].0,
    );
    assert((seq![("summary"@, summary)] + details)[i + 1] == details[i]);
}

/// A detail is kept as it is where no word in its name and none in its value tells that it is
/// sensitive.
pub proof fn harmless_details_are_kept(
    place: int,
    timestamp_ms: u64,
    kind: SwarmActivityKind,
    ids: IdsView,
    summary: Seq<char>,
    details: Seq<(Seq<char>, Seq<char>)>,
    i: int,
)
    requires
        0 <= i < details.len(),
        forall|j: int| i < j < details.len() ==> (#[trigger] details[j]).0 != details[i].0,
        forall|word: Seq<char>| #[trigger] mentions(details[i].0, word) ==> !tells_in_names(word),
        forall|word: Seq<char>| #[trigger] mentions(details[i].1, word) ==> !tells_in_values(word),
    ensures
        ({
            let entry = entry_at(place, timestamp_ms, kind, ids, summary, details);
            &&& entry.details.contains_key(details[i].0)
            &&& entry.details[details[i].0] == details[i].1
        }),
{
    names_are_told_by_words(details[i].0);
    values_are_told_by_words(details[i].1);
    detail_is_kept(details, i);
}

/// The name of the summary tells nothing.
proof fn summary_is_a_harmless_name()
    ensures
        !names_secret("summary"@),
{
    reveal_strlit("summary");
    reveal_strlit("authorization");
    reveal_strlit("bearer");
    reveal_strlit("body");
    reveal_strlit("cookie");
    reveal_strlit("key");
    reveal_strlit("password");
    reveal_strlit("prompt");
    reveal_strlit("secret");
    reveal_strlit("token");
    reveal_strlit("transcript");
    names_are_told_by_words("summary"@);
    assert forall|word: Seq<char>| #[trigger] mentions("summary"@, word) implies !tells_in_names(
        word,
    ) by {
        let at = choose|at: int|
            0 <= at <= "summary"@.len() - word.len() && spells(
                #[trigger] "summary"@.subrange(at, at + word.len()),
                word,
            );
        let piece = "summary"@.subrange(at, at + word.len());
        assert(word.len() > 0 ==> is_letter_of(piece[0], word[0]) && piece[0] == "summary"@[at]);
        assert(word.len() > 1 ==> is_letter_of(piece[1], word[1]) && piece[1] == "summary"@[at + 1]);
        assert(word.len() > 2 ==> is_letter_of(piece[2], word[2]) && piece[2] == "summary"@[at + 2]);
    }
}

/// The summary of an event is kept as it is, unless one of the words that tell a sensitive value
/// stands in it.
pub proof fn summaries_are_redacted_for_their_words(
    place: int,
    timestamp_ms: u64,
    kind: SwarmActivityKind,
    ids: IdsView,
    summary: Seq<char>,
    details: Seq<(Seq<char>, Seq<char>)>,
)
    ensures
        entry_at(place, timestamp_ms, kind, ids, summary, details).summary == if exists|word:
            Seq<char>| #[trigger] mentions(summary, word) && tells_in_values(word) {
            "[REDACTED]"@
        } else {
            summary
        },
{
    summary_is_a_harmless_name();
    values_are_told_by_words(summary);
}

/// An event keeps its time, its kind and its identifiers as they were given, and gets the schema
/// and its place; its details have the names that were given and no others.
pub proof fn events_keep_what_was_given(
    place: int,
    timestamp_ms: u64,
    kind: SwarmActivityKind,
    ids: IdsView,
    summary: Seq<char>,
    details: Seq<(Seq<char>, Seq<char>)>,
    name: Seq<char>,
)
    requires
        0 <= place <= u64::MAX,
    ensures
        ({
            let entry = entry_at(place, timestamp_ms, kind, ids, summary, details);
            &&& entry.schema == "pi.swarm.activity_ledger.v1"@
            &&& entry.sequence == place
            &&& entry.timestamp_ms == timestamp_ms
            &&& entry.kind == kind
            &&& entry.ids.correlation_id == ids.correlation_id
            &&& entry.ids.bead_id == ids.bead_id
            &&& entry.ids.mail_thread_id == ids.mail_thread_id
            &&& entry.ids.mail_message_id == ids.mail_message_id
            &&& entry.ids.agent_name == ids.agent_name
            &&& entry.ids.file_reservation_id == ids.file_reservation_id
            &&& entry.ids.rch_job_id == ids.rch_job_id
            &&& entry.ids.verification_id == ids.verification_id
            &&& entry.ids.git_sha == ids.git_sha
            &&& entry.details.contains_key(name) <==> exists|i: int|
                0 <= i < details.len() && (#[trigger] details[i]).0 == name
        }),
{
    let kept = redacted_pairs(details);
    map_of_binds(kept);
    if exists|i: int| 0 <= i < details.len() && (#[trigger] details[i]).0 == name {
        let i = choose|i: int| 0 <= i < details.len() && (#[trigger] details[i]).0 == name;
        assert(kept[i].0 == name);
    }
    if exists|i: int| 0 <= i < kept.len() && (#[trigger] kept[i]).0 == name {
        let i = choose|i: int| 0 <= i < kept.len() && (#[trigger] kept[i]).0 == name;
        assert(details[i].0 == name);
    }
}

/// Whether a field is told to be sensitive by a word in its name or in its value.
pub open spec fn is_told(field: (Seq<char>, Seq<char>)) -> bool {
    ||| exists|word: Seq<char>| #[trigger] mentions(field.0, word) && tells_in_names(word)
    ||| exists|word: Seq<char>| #[trigger] mentions(field.1, word) && tells_in_values(word)
}

/// Sensitive fields are picked in their order.
proof fn sensitive_fields_are_picked(pairs: Seq<(Seq<char>, Seq<char>)>)
    ensures
        sensitive_names(pairs) == pairs.filter(|p: (Seq<char>, Seq<char>)| is_told(p)).map_values(
            |p: (Seq<char>, Seq<char>)| p.0,
        ),
        sensitive_names(pairs).len() <= pairs.len(),
    decreases pairs.len(),
{
    reveal(Seq::filter);
    let f = |p: (Seq<char>, Seq<char>)| p.0;
    if pairs.len() > 0 {
        let init = pairs.drop_last();
        let last = pairs.last();
        sensitive_fields_are_picked(init);
        names_are_told_by_words(last.0);
        values_are_told_by_words(last.1);
        assert(is_told(last) == is_sensitive(last.0, last.1));
        let kept = init.filter(|p: (Seq<char>, Seq<char>)| is_told(p));
        assert(kept.push(last).map_values(f) =~= kept.map_values(f).push(last.0));
    } else {
        assert(sensitive_names(pairs) =~= pairs.filter(
            |p: (Seq<char>, Seq<char>)| is_told(p),
        ).map_values(f));
    }
}

/// The redaction of an entry names the sensitive fields and no others, the summary first and the
/// details in the order in which they were given, each time that one was given; and it counts
/// them.
pub proof fn redactions_name_and_count_sensitive_fields(
    place: int,
    timestamp_ms: u64,
    kind: SwarmActivityKind,
    ids: IdsView,
    summary: Seq<char>,
    details: Seq<(Seq<char>, Seq<char>)>,
)
    requires
        details.len() < usize::MAX,
    ensures
        ({
            let redaction = entry_at(
                place,
                timestamp_ms,
                kind,
                ids,
                summary,
                details,
            ).redaction;
            let fields = seq![("summary"@, summary)] + details;
            &&& redaction.redacted_fields == fields.filter(
                |p: (Seq<char>, Seq<char>)| is_told(p),
            ).map_values(|p: (Seq<char>, Seq<char>)| p.0)
            &&& redaction.redacted_count == redaction.redacted_fields.len()
        }),
{
    sensitive_fields_are_picked(seq![("summary"@, summary)] + details);
}

} // verus!
