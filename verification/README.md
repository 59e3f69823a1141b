# swarm_activity_ledger

A redacted, append-only activity ledger for runs of many agents, written in Verus.

Callers append operational events. The ledger numbers them, replaces sensitive values by
`[REDACTED]`, and exports the entries as JSONL, one JSON object a line. JSONL is read back with
every row checked, and can be turned into a timeline that does not depend on the order of its rows.
Bounded sketches count entries, their most frequent values and their latencies in a fixed amount of
room, and can be merged.

## Layout

- `src/` is the verified library.
  - `ledger`, `entry`, `redaction`: the ledger and what it keeps of an event.
  - `jsonl`, `row`, `record`, `json`, `json_text`, `lines`: entries as text.
  - `timeline`: events in order.
  - `sketch`, `hotspots`, `dimensions`, `latency`, `ranges`, `counts`: bounded summaries.
  - `text`, `ordered`, `sorted_map`: strings, sorting and maps by key.
  - `lexer`: the calls into `serde_json`, whose contracts are taken on trust.
  - The modules whose names end in `laws` state what holds of the library as a whole.
- `tests/` runs the library.
- `app/` holds types with `serde` and `thiserror` derives, and conversions to and from the
  library's own types. It has `serde` say why a row could not be read.

## What is proved

Each function says what it returns or changes over a mathematical model of its arguments: an entry
is a record of texts and numbers, a ledger a sequence of entries, a sketch a record of maps. Among
the laws:

- what a ledger exports is read back as it was, as long as the correlation IDs are not blank;
- sequence numbers count the entries, and no sensitive value is kept;
- a timeline does not depend on the order of the rows;
- the summary of a ledger lists the most frequent of all values, and a sketch counts each value that
  it retains as often as it came, however many it dropped;
- a reported percentile is off the rank it stands for by no more than the reported bound;
- a sketch never holds more keys in a dimension or more latency samples than its capacities admit,
  nor more than sixteen ranges for each latency sample, from which it tells how far a percentile may
  be off; it counts events, kinds and redactions exactly;
- it makes no difference which of two sketches of the same capacities is merged into the other, and
  a sketch of nothing changes nothing;
- merging sketches agrees with recording their entries in everything that no capacity limits, and
  in everything while there is room for all different values.
