//! Ledger entries as JSONL: one JSON object a line.

use vstd::prelude::*;

use crate::entry::{entry_views, EntryView, SwarmActivityLedgerEntry};
use crate::json::{rendered, rendered_is_printable, understood};
use crate::json_text::{parse_json, write_json};
use crate::lexer::{json_value, read_value, says};
use crate::lines::{
    is_one_line, joined, joined_rows_are_lines, joined_with_one_more, lines, lines_of, text_views,
};
use crate::ordered::views;
use crate::row::{entry_from_json, entry_json, entry_of, entry_to_json, ROW_DEPTH};
use crate::row_laws::entry_gives_back;
use crate::text::{decimal, decimal_text, starts_unblank, trim, trimmed};
use crate::timeline::{timeline, timeline_from_entries, EventView, SwarmActivityTimelineEvent};

verus! {

/// Why a row cannot be read.
#[derive(Debug)]
pub enum RowFault {
    /// The row is no JSON value.
    NotJson(serde_json::Error),
    /// The row is a JSON value that stands for no entry. Which field is at fault is for a `serde`
    /// reader of the row to say.
    NotAnEntry,
}

/// Errors when parsing or validating activity ledger JSONL.
#[derive(Debug)]
pub enum SwarmActivityLedgerError {
    /// One JSONL row was not valid JSON.
    Parse {
        /// 1-based line number.
        line: usize,
        /// Why the row cannot be read.
        source: RowFault,
    },
    /// One JSONL row used an unsupported schema.
    UnsupportedSchema {
        /// 1-based line number.
        line: usize,
        /// Unsupported schema value.
        schema: String,
    },
    /// One JSONL row omitted a required correlation ID.
    MissingCorrelationId {
        /// 1-based line number.
        line: usize,
    },
}

/// The model of a [`SwarmActivityLedgerError`].
#[verifier::ext_equal]
pub enum FaultView {
    Parse { line: int, is_json: bool },
    UnsupportedSchema { line: int, schema: Seq<char> },
    MissingCorrelationId { line: int },
}

impl View for SwarmActivityLedgerError {
    type V = FaultView;

    open spec fn view(&self) -> FaultView {
        match self {
            SwarmActivityLedgerError::Parse { line, source } => FaultView::Parse {
                line: *line as int,
                is_json: source is NotAnEntry,
            },
            SwarmActivityLedgerError::UnsupportedSchema { line, schema } => {
                FaultView::UnsupportedSchema { line: *line as int, schema: schema@ }
            },
            SwarmActivityLedgerError::MissingCorrelationId { line } => {
                FaultView::MissingCorrelationId { line: *line as int }
            },
        }
    }
}

impl FaultView {
    /// The message of a fault, given what the source of a parse error reads.
    pub open spec fn message(self, source: Seq<char>) -> Seq<char> {
        match self {
            FaultView::Parse { line, .. } => "failed to parse swarm activity ledger line "@
                + decimal(line as nat) + ": "@ + source,
            FaultView::UnsupportedSchema { line, schema } =>
                "unsupported swarm activity ledger schema on line "@ + decimal(line as nat) + ": "@
                + schema,
            FaultView::MissingCorrelationId { line } =>
                "missing correlation_id on swarm activity ledger line "@ + decimal(line as nat),
        }
    }
}

impl SwarmActivityLedgerError {
    /// The message of the error, given what the source of a parse error reads.
    pub fn message(&self, source: &str) -> (r: String)
        ensures
            r@ == self@.message(source@),
    {
        let mut out = String::new();
        match self {
            SwarmActivityLedgerError::Parse { line, .. } => {
                out.append("failed to parse swarm activity ledger line ");
                out.append(decimal_text(*line as u64).as_str());
                out.append(": ");
                out.append(source);
            },
            SwarmActivityLedgerError::UnsupportedSchema { line, schema } => {
                out.append("unsupported swarm activity ledger schema on line ");
                out.append(decimal_text(*line as u64).as_str());
                out.append(": ");
                out.append(schema.as_str());
            },
            SwarmActivityLedgerError::MissingCorrelationId { line } => {
                out.append("missing correlation_id on swarm activity ledger line ");
                out.append(decimal_text(*line as u64).as_str());
            },
        }
        out
    }
}

/// The line of an entry.
pub open spec fn row_text(entry: EntryView) -> Seq<char> {
    rendered(entry_json(entry))
}

/// The lines of a list of entries.
pub open spec fn row_texts(entries: Seq<EntryView>) -> Seq<Seq<char>> {
    entries.map_values(|e: EntryView| row_text(e))
}

/// The JSONL text of a list of entries.
pub open spec fn jsonl_text(entries: Seq<EntryView>) -> Seq<char> {
    joined(row_texts(entries))
}

/// The entry that a line stands for.
pub open spec fn row_entry(line: Seq<char>) -> Option<EntryView> {
    match json_value(line) {
        Ok(value) => entry_of(understood(value, ROW_DEPTH as nat)),
        Err(_) => None,
    }
}

/// Whether a row fault is that of a line: the error of a line that is no JSON value says why.
pub open spec fn is_fault_of(fault: RowFault, line: Seq<char>) -> bool {
    match fault {
        RowFault::NotJson(error) => json_value(line) is Err && says(error, json_value(line)->Err_0),
        RowFault::NotAnEntry => json_value(line) is Ok,
    }
}

/// Whether an error that a row could not be read has the source that belongs to the row on its
/// line.
pub open spec fn has_source(error: SwarmActivityLedgerError, rows: Seq<Seq<char>>) -> bool {
    error matches SwarmActivityLedgerError::Parse { line, source } ==> 1 <= line <= rows.len()
        && is_fault_of(source, rows[line - 1])
}

/// What becomes of an entry on the given line: it is rejected for its schema, then for a blank
/// correlation ID.
pub open spec fn admission(line: int, entry: EntryView) -> Result<EntryView, FaultView> {
    if !entry.is_current() {
        Err(FaultView::UnsupportedSchema { line, schema: entry.schema })
    } else if trimmed(entry.ids.correlation_id).len() == 0 {
        Err(FaultView::MissingCorrelationId { line })
    } else {
        Ok(entry)
    }
}

/// Whether an entry can stand in a ledger file.
pub open spec fn is_admissible(entry: EntryView) -> bool {
    &&& entry.is_current()
    &&& trimmed(entry.ids.correlation_id).len() > 0
    &&& entry.details.dom().finite()
}

/// What becomes of a list of lines: their entries, or the fault of the first line that has one.
/// Blank lines are passed over.
pub open spec fn admitted(rows: Seq<Seq<char>>) -> Result<Seq<EntryView>, FaultView>
    decreases rows.len(),
{
    if rows.len() == 0 {
        Ok(Seq::empty())
    } else {
        match admitted(rows.drop_last()) {
            Err(fault) => Err(fault),
            Ok(entries) => if trimmed(rows.last()).len() == 0 {
                Ok(entries)
            } else {
                let line = rows.len() as int;
                match row_entry(rows.last()) {
                    None => Err(
                        FaultView::Parse { line, is_json: json_value(rows.last()) is Ok },
                    ),
                    Some(entry) => match admission(line, entry) {
                        Ok(entry) => Ok(entries.push(entry)),
                        Err(fault) => Err(fault),
                    },
                }
            },
        }
    }
}

/// The model of an outcome of reading entries.
pub open spec fn entries_outcome(
    r: Result<Vec<SwarmActivityLedgerEntry>, SwarmActivityLedgerError>,
) -> Result<Seq<EntryView>, FaultView> {
    match r {
        Ok(entries) => Ok(entry_views(entries@)),
        Err(error) => Err(error@),
    }
}

/// Checks an entry that stands on the given line.
///
/// # Errors
///
/// Returns a validation error if the entry uses an unsupported schema or has a blank correlation
/// ID.
pub fn admit_entry(line: usize, entry: SwarmActivityLedgerEntry) -> (r: Result<
    SwarmActivityLedgerEntry,
    SwarmActivityLedgerError,
>)
    ensures
        admission(line as int, entry@) == match r {
            Ok(same) => Ok(same@),
            Err(error) => Err(error@),
        },
{
    if !entry.has_current_schema() {
        return Err(SwarmActivityLedgerError::UnsupportedSchema { line, schema: entry.schema });
    }
    if trim(entry.ids.correlation_id.as_str()).as_str().is_empty() {
        return Err(SwarmActivityLedgerError::MissingCorrelationId { line });
    }
    Ok(entry)
}

/// The entry that a line stands for.
///
/// # Errors
///
/// Returns a fault if the line is no JSON value, or none that stands for an entry.
pub fn read_row(line: &str) -> (r: Result<SwarmActivityLedgerEntry, RowFault>)
    ensures
        row_entry(line@) == match r {
            Ok(entry) => Some(entry@),
            Err(_) => None,
        },
        r is Err ==> is_fault_of(r->Err_0, line@),
        forall|entry: EntryView|
            line@ == #[trigger] row_text(entry) && entry.details.dom().finite() ==> (r matches Ok(
                read,
            ) && read@ == entry),
{
    let value = match read_value(line) {
        Ok(value) => value,
        Err(error) => return Err(RowFault::NotJson(error)),
    };
    let json = parse_json(value, ROW_DEPTH);
    proof {
        assert forall|entry: EntryView|
            line@ == #[trigger] row_text(entry) && entry.details.dom().finite() implies entry_of(
            json@,
        ) == Some(entry) by {
            entry_gives_back(entry);
        }
    }
    match entry_from_json(&json) {
        Some(entry) => Ok(entry),
        None => Err(RowFault::NotAnEntry),
    }
}

/// Serialize entries as JSONL.
///
/// # Errors
///
/// Returns a serde error if an entry cannot be serialized.
pub fn entries_to_jsonl(entries: &[SwarmActivityLedgerEntry]) -> (r: Result<
    String,
    serde_json::Error,
>)
    ensures
        r is Ok,
        r->Ok_0@ == jsonl_text(entry_views(entries@)),
{
    let ghost all = entry_views(entries@);
    let ghost rows = row_texts(all);
    let mut out = String::new();
    let mut i: usize = 0;
    while i < entries.len()
        invariant
            i <= entries@.len(),
            all == entry_views(entries@),
            rows == row_texts(all),
            out@ == joined(rows.take(i as int)),
        decreases entries@.len() - i,
    {
        if i > 0 {
            out.push('\n');
        }
        let mut row = String::new();
        write_json(&mut row, &entry_to_json(&entries[i]))?;
        proof {
            assert(rows.take(i + 1) =~= rows.take(i as int).push(row@));
            joined_with_one_more(rows.take(i as int), row@);
        }
        out.append(row.as_str());
        i += 1;
    }
    assert(rows.take(entries@.len() as int) =~= rows);
    Ok(out)
}

/// Parse and validate activity ledger JSONL entries. What [`entries_to_jsonl`] wrote of entries
/// of the current schema with correlation IDs is read back as it was.
///
/// # Errors
///
/// Returns a validation error if any row is invalid, uses an unsupported schema,
/// or omits the required correlation ID.
pub fn entries_from_jsonl(input: &str) -> (r: Result<
    Vec<SwarmActivityLedgerEntry>,
    SwarmActivityLedgerError,
>)
    ensures
        entries_outcome(r) == admitted(lines(input@)),
        r is Ok <==> admitted(lines(input@)) is Ok,
        r is Ok ==> entry_views(r->Ok_0@) == admitted(lines(input@))->Ok_0,
        r is Err ==> r->Err_0@ == admitted(lines(input@))->Err_0,
        r is Err ==> has_source(r->Err_0, lines(input@)),
        forall|entries: Seq<EntryView>|
            input@ == #[trigger] jsonl_text(entries) && (forall|i: int|
                0 <= i < entries.len() ==> is_admissible(#[trigger] entries[i])) ==> (r matches Ok(
                read,
            ) && entry_views(read@) == entries),
{
    let rows = lines_of(input);
    let ghost texts = lines(input@);
    let mut entries: Vec<SwarmActivityLedgerEntry> = Vec::new();
    let mut i: usize = 0;
    proof {
        assert(entry_views(entries@) =~= Seq::empty());
        assert forall|written: Seq<EntryView>|
            input@ == #[trigger] jsonl_text(written) implies texts
            == row_texts(written) by {
            assert forall|k: int| 0 <= k < written.len() implies is_one_line(
                #[trigger] row_texts(written)[k],
            ) by {
                row_is_one_line(written[k]);
            }
            joined_rows_are_lines(row_texts(written));
        }
    }
    while i < rows.len()
        invariant
            i <= rows@.len(),
            texts == text_views(rows@),
            texts == lines(input@),
            admitted(texts.take(i as int)) == Ok::<Seq<EntryView>, FaultView>(
                entry_views(entries@),
            ),
            forall|written: Seq<EntryView>|
                input@ == #[trigger] jsonl_text(written) ==> texts
                    == row_texts(written),
            forall|written: Seq<EntryView>|
                input@ == #[trigger] jsonl_text(written) && (forall|k: int|
                    0 <= k < written.len() ==> is_admissible(#[trigger] written[k]))
                    ==> entry_views(entries@) == written.take(i as int),
        decreases rows@.len() - i,
    {
        let ghost before = entries@;
        let line: usize = i + 1;
        proof {
            assert(texts.take(i + 1).drop_last() =~= texts.take(i as int));
            assert(texts.take(i + 1).last() == rows@[i as int]@);
        }
        let row = rows[i].as_str();
        proof {
            assert forall|written: Seq<EntryView>|
                input@ == #[trigger] jsonl_text(written) implies row@
                == row_text(written[i as int]) && trimmed(row@).len() > 0 by {
                row_is_not_blank(written[i as int]);
            }
        }
        if !trim(row).as_str().is_empty() {
            let entry = match read_row(row) {
                Ok(entry) => entry,
                Err(source) => {
                    proof {
                        fault_stands(texts, i + 1);
                    }
                    return Err(SwarmActivityLedgerError::Parse { line, source });
                },
            };
            match admit_entry(line, entry) {
                Ok(entry) => {
                    entries.push(entry);
                    assert(entry_views(entries@) =~= entry_views(before).push(entry@));
                },
                Err(error) => {
                    proof {
                        fault_stands(texts, i + 1);
                    }
                    return Err(error);
                },
            }
        }
        i += 1;
    }
    assert(texts.take(rows@.len() as int) =~= texts);
    Ok(entries)
}

/// The model of an outcome of reading a timeline.
pub open spec fn timeline_outcome(
    r: Result<Vec<SwarmActivityTimelineEvent>, SwarmActivityLedgerError>,
) -> Result<Seq<EventView>, FaultView> {
    match r {
        Ok(events) => Ok(views(events@)),
        Err(error) => Err(error@),
    }
}

/// Build a deterministic timeline from JSONL, regardless of input row order.
///
/// # Errors
///
/// Returns a validation error if any JSONL row is invalid.
pub fn timeline_from_jsonl(input: &str) -> (r: Result<
    Vec<SwarmActivityTimelineEvent>,
    SwarmActivityLedgerError,
>)
    ensures
        timeline_outcome(r) == match admitted(lines(input@)) {
            Ok(entries) => Ok(timeline(entries)),
            Err(fault) => Err(fault),
        },
        r is Ok <==> admitted(lines(input@)) is Ok,
        r is Ok ==> views(r->Ok_0@) == timeline(admitted(lines(input@))->Ok_0),
        r is Err ==> r->Err_0@ == admitted(lines(input@))->Err_0,
        r is Err ==> has_source(r->Err_0, lines(input@)),
        forall|entries: Seq<EntryView>|
            input@ == #[trigger] jsonl_text(entries) && (forall|i: int|
                0 <= i < entries.len() ==> is_admissible(#[trigger] entries[i])) ==> (r matches Ok(
                events,
            ) && views(events@) == timeline(entries)),
{
    match entries_from_jsonl(input) {
        Ok(entries) => Ok(timeline_from_entries(entries.as_slice())),
        Err(error) => Err(error),
    }
}

/// The line of an entry is one line.
proof fn row_is_one_line(entry: EntryView)
    ensures
        is_one_line(row_text(entry)),
{
    reveal_strlit("{");
    rendered_is_printable(entry_json(entry));
}

/// The line of an entry is not blank.
proof fn row_is_not_blank(entry: EntryView)
    ensures
        trimmed(row_text(entry)).len() > 0,
{
    reveal_strlit("{");
    starts_unblank(row_text(entry));
}

/// A fault among the first lines is the fault of all lines.
proof fn fault_stands(rows: Seq<Seq<char>>, count: int)
    requires
        0 <= count <= rows.len(),
        admitted(rows.take(count)) is Err,
    ensures
        admitted(rows) == admitted(rows.take(count)),
    decreases rows.len() - count,
{
    if count < rows.len() {
        assert(rows.take(count + 1).drop_last() =~= rows.take(count));
        fault_stands(rows, count + 1);
    } else {
        assert(rows.take(count) =~= rows);
    }
}

} // verus!
