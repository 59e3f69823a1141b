//! Redacted multi-agent activity ledger for swarm runs.
//!
//! The ledger is intentionally small and append-oriented: callers provide operational events, the
//! ledger assigns monotonic sequence numbers, redacts sensitive fields by default, and exports
//! stable JSONL for incident review. Bounded sketches summarize any number of entries in a fixed
//! amount of room.
//!
//! Every function states what it does over mathematical models of its arguments. What holds of
//! the library as a whole stands in the modules whose names end in `laws`.

pub mod bucket_laws;
pub mod counts;
pub mod dimensions;
pub mod entry;
pub mod hotspot_laws;
pub mod hotspots;
pub mod json;
pub mod json_text;
pub mod jsonl;
pub mod latency;
pub mod latency_laws;
pub mod latency_text_laws;
pub mod ledger;
pub mod ledger_laws;
pub mod lexer;
pub mod lines;
pub mod ordered;
pub mod range_laws;
pub mod ranges;
pub mod reading_laws;
pub mod record;
pub mod recording_laws;
pub mod redaction;
pub mod redaction_laws;
pub mod row;
pub mod row_laws;
pub mod sketch;
pub mod sketch_laws;
pub mod sorted_map;
pub mod summary_laws;
pub mod text;
pub mod text_laws;
pub mod timeline;
pub mod timeline_laws;
pub mod view_laws;
pub mod writing_laws;

pub use crate::entry::{
    SwarmActivityIds, SwarmActivityKind, SwarmActivityLedgerEntry, SWARM_ACTIVITY_LEDGER_SCHEMA,
};
pub use crate::hotspots::SwarmActivityHotspot;
pub use crate::jsonl::{
    entries_from_jsonl, entries_to_jsonl, timeline_from_jsonl, RowFault, SwarmActivityLedgerError,
};
pub use crate::latency::SwarmActivityLatencySummary;
pub use crate::ledger::SwarmActivityLedger;
pub use crate::redaction::SwarmActivityRedaction;
pub use crate::sketch::{
    SwarmActivitySketch, SwarmActivitySummary, SwarmActivitySummaryConfig,
    DEFAULT_SWARM_ACTIVITY_HOTSPOT_CAPACITY, DEFAULT_SWARM_ACTIVITY_LATENCY_SAMPLE_CAPACITY,
    SWARM_ACTIVITY_SUMMARY_SCHEMA,
};
pub use crate::timeline::SwarmActivityTimelineEvent;
