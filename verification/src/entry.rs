//! The entries of the ledger.

use vstd::prelude::*;

use crate::ordered::Ordered;
use crate::redaction::{RedactionView, SwarmActivityRedaction};
use crate::sorted_map::{Key, SortedMap};
use crate::text::same_text;

verus! {

/// Schema emitted by every swarm activity ledger entry.
pub const SWARM_ACTIVITY_LEDGER_SCHEMA: &'static str = "pi.swarm.activity_ledger.v1";

/// Category of activity captured by the swarm ledger.
#[derive(Debug, Clone, Copy, PartialEq, Eq, PartialOrd, Ord, Structural)]
pub enum SwarmActivityKind {
    /// Beads status or ownership changed.
    BeadStatus,
    /// Agent Mail message/thread activity.
    AgentMail,
    /// Agent Mail file reservation activity.
    FileReservation,
    /// RCH verification job state.
    RchJob,
    /// Local or remote verification command result.
    Verification,
    /// Git commit or push event.
    GitCommit,
    /// Explicit recovery or operator intervention.
    Recovery,
    /// General redacted note.
    Note,
}

impl View for SwarmActivityKind {
    type V = SwarmActivityKind;

    open spec fn view(&self) -> SwarmActivityKind {
        *self
    }
}

impl SwarmActivityKind {
    /// The position of a category among all categories.
    pub open spec fn position(self) -> u8 {
        match self {
            SwarmActivityKind::BeadStatus => 0,
            SwarmActivityKind::AgentMail => 1,
            SwarmActivityKind::FileReservation => 2,
            SwarmActivityKind::RchJob => 3,
            SwarmActivityKind::Verification => 4,
            SwarmActivityKind::GitCommit => 5,
            SwarmActivityKind::Recovery => 6,
            SwarmActivityKind::Note => 7,
        }
    }

    /// The position of the category among all categories.
    pub fn index(&self) -> (r: u8)
        ensures
            r == self.position(),
    {
        match self {
            SwarmActivityKind::BeadStatus => 0,
            SwarmActivityKind::AgentMail => 1,
            SwarmActivityKind::FileReservation => 2,
            SwarmActivityKind::RchJob => 3,
            SwarmActivityKind::Verification => 4,
            SwarmActivityKind::GitCommit => 5,
            SwarmActivityKind::Recovery => 6,
            SwarmActivityKind::Note => 7,
        }
    }
}

impl Ordered for SwarmActivityKind {
    open spec fn precedes(a: SwarmActivityKind, b: SwarmActivityKind) -> bool {
        a.position() < b.position()
    }

    proof fn order_is_irreflexive(a: SwarmActivityKind) {
    }

    proof fn order_is_transitive(
        a: SwarmActivityKind,
        b: SwarmActivityKind,
        c: SwarmActivityKind,
    ) {
    }

    proof fn order_is_total(a: SwarmActivityKind, b: SwarmActivityKind) {
    }

    fn is_before(&self, other: &Self) -> (r: bool) {
        self.index() < other.index()
    }
}

impl Key for SwarmActivityKind {
    fn duplicate(&self) -> (r: Self) {
        *self
    }
}

impl<V: View> SortedMap<SwarmActivityKind, V> {
    /// The value of a category.
    pub fn get(&self, kind: &SwarmActivityKind) -> (r: Option<&V>)
        ensures
            r matches Some(v) ==> self@.contains_key(*kind) && v@ == self@[*kind],
            r is None ==> !self@.contains_key(*kind),
    {
        self.find(kind)
    }
}

impl<V: View> SortedMap<String, V> {
    /// The value under a name.
    pub fn get(&self, name: &str) -> (r: Option<&V>)
        ensures
            r matches Some(v) ==> self@.contains_key(name@) && v@ == self@[name@],
            r is None ==> !self@.contains_key(name@),
    {
        let key = name.to_owned();
        self.find(&key)
    }
}

/// The text of an optional string.
pub open spec fn text_option(value: Option<String>) -> Option<Seq<char>> {
    match value {
        Some(text) => Some(text@),
        None => None,
    }
}

/// Correlation identifiers attached to a swarm activity event.
#[derive(Debug, PartialEq, Eq)]
pub struct SwarmActivityIds {
    /// Stable event correlation ID for joining entries across systems.
    pub correlation_id: String,
    /// Beads issue ID, when relevant.
    pub bead_id: Option<String>,
    /// Agent Mail thread ID, when relevant.
    pub mail_thread_id: Option<String>,
    /// Agent Mail message ID, when relevant.
    pub mail_message_id: Option<u64>,
    /// Agent name that produced or owns the event.
    pub agent_name: Option<String>,
    /// File reservation ID, when relevant.
    pub file_reservation_id: Option<u64>,
    /// RCH job/build ID, when relevant.
    pub rch_job_id: Option<String>,
    /// Verification command/run ID, when relevant.
    pub verification_id: Option<String>,
    /// Git commit SHA, when relevant.
    pub git_sha: Option<String>,
}

/// The model of [`SwarmActivityIds`].
#[verifier::ext_equal]
pub struct IdsView {
    pub correlation_id: Seq<char>,
    pub bead_id: Option<Seq<char>>,
    pub mail_thread_id: Option<Seq<char>>,
    pub mail_message_id: Option<u64>,
    pub agent_name: Option<Seq<char>>,
    pub file_reservation_id: Option<u64>,
    pub rch_job_id: Option<Seq<char>>,
    pub verification_id: Option<Seq<char>>,
    pub git_sha: Option<Seq<char>>,
}

impl View for SwarmActivityIds {
    type V = IdsView;

    open spec fn view(&self) -> IdsView {
        IdsView {
            correlation_id: self.correlation_id@,
            bead_id: text_option(self.bead_id),
            mail_thread_id: text_option(self.mail_thread_id),
            mail_message_id: self.mail_message_id,
            agent_name: text_option(self.agent_name),
            file_reservation_id: self.file_reservation_id,
            rch_job_id: text_option(self.rch_job_id),
            verification_id: text_option(self.verification_id),
            git_sha: text_option(self.git_sha),
        }
    }
}

impl IdsView {
    /// The identifiers of an event of which only the correlation ID is known.
    pub open spec fn only(correlation_id: Seq<char>) -> IdsView {
        IdsView {
            correlation_id,
            bead_id: None,
            mail_thread_id: None,
            mail_message_id: None,
            agent_name: None,
            file_reservation_id: None,
            rch_job_id: None,
            verification_id: None,
            git_sha: None,
        }
    }
}

impl Default for SwarmActivityIds {
    fn default() -> (r: Self)
        ensures
            r@ == IdsView::only(Seq::empty()),
    {
        SwarmActivityIds {
            correlation_id: String::new(),
            bead_id: None,
            mail_thread_id: None,
            mail_message_id: None,
            agent_name: None,
            file_reservation_id: None,
            rch_job_id: None,
            verification_id: None,
            git_sha: None,
        }
    }
}

/// A copy of an optional string.
fn copied(value: &Option<String>) -> (r: Option<String>)
    ensures
        text_option(r) == text_option(*value),
{
    match value {
        Some(text) => Some(text.as_str().to_owned()),
        None => None,
    }
}

impl Clone for SwarmActivityIds {
    fn clone(&self) -> (r: Self)
        ensures
            r@ == self@,
    {
        SwarmActivityIds {
            correlation_id: self.correlation_id.as_str().to_owned(),
            bead_id: copied(&self.bead_id),
            mail_thread_id: copied(&self.mail_thread_id),
            mail_message_id: self.mail_message_id,
            agent_name: copied(&self.agent_name),
            file_reservation_id: self.file_reservation_id,
            rch_job_id: copied(&self.rch_job_id),
            verification_id: copied(&self.verification_id),
            git_sha: copied(&self.git_sha),
        }
    }
}

impl SwarmActivityIds {
    /// Create ID metadata with the required correlation ID.
    #[must_use]
    pub fn new(correlation_id: &str) -> (r: Self)
        ensures
            r@ == IdsView::only(correlation_id@),
    {
        let mut ids = SwarmActivityIds::default();
        ids.correlation_id = correlation_id.to_owned();
        ids
    }

    /// Attach a bead ID.
    #[must_use]
    pub fn with_bead_id(self, bead_id: &str) -> (r: Self)
        ensures
            r@ == (IdsView { bead_id: Some(bead_id@), ..self@ }),
    {
        let mut ids = self;
        ids.bead_id = Some(bead_id.to_owned());
        ids
    }

    /// Attach an Agent Mail thread ID.
    #[must_use]
    pub fn with_mail_thread_id(self, mail_thread_id: &str) -> (r: Self)
        ensures
            r@ == (IdsView { mail_thread_id: Some(mail_thread_id@), ..self@ }),
    {
        let mut ids = self;
        ids.mail_thread_id = Some(mail_thread_id.to_owned());
        ids
    }

    /// Attach an agent name.
    #[must_use]
    pub fn with_agent_name(self, agent_name: &str) -> (r: Self)
        ensures
            r@ == (IdsView { agent_name: Some(agent_name@), ..self@ }),
    {
        let mut ids = self;
        ids.agent_name = Some(agent_name.to_owned());
        ids
    }

    /// Attach an RCH job ID.
    #[must_use]
    pub fn with_rch_job_id(self, rch_job_id: &str) -> (r: Self)
        ensures
            r@ == (IdsView { rch_job_id: Some(rch_job_id@), ..self@ }),
    {
        let mut ids = self;
        ids.rch_job_id = Some(rch_job_id.to_owned());
        ids
    }

    /// Attach a git commit SHA.
    #[must_use]
    pub fn with_git_sha(self, git_sha: &str) -> (r: Self)
        ensures
            r@ == (IdsView { git_sha: Some(git_sha@), ..self@ }),
    {
        let mut ids = self;
        ids.git_sha = Some(git_sha.to_owned());
        ids
    }
}

/// The structured detail fields of an entry. Only a ledger that redacts them and a reader of
/// JSONL make them.
#[derive(Debug, PartialEq, Eq)]
pub struct DetailFields {
    texts: SortedMap<String, String>,
}

impl View for DetailFields {
    type V = Map<Seq<char>, Seq<char>>;

    closed spec fn view(&self) -> Map<Seq<char>, Seq<char>> {
        self.texts@
    }
}

impl Clone for DetailFields {
    fn clone(&self) -> (r: Self)
        ensures
            r@ == self@,
    {
        DetailFields { texts: self.texts.clone() }
    }
}

impl DetailFields {
    /// The detail fields with the given names and texts.
    pub(crate) fn new(texts: SortedMap<String, String>) -> (r: Self)
        ensures
            r@ == texts@,
    {
        DetailFields { texts }
    }
}

/// One redacted JSONL entry in the swarm activity ledger.
#[derive(Debug, PartialEq, Eq)]
pub struct SwarmActivityLedgerEntry {
    /// Stable schema identifier.
    pub schema: String,
    /// Monotonic sequence number assigned by the producing ledger.
    pub sequence: u64,
    /// Event timestamp in Unix milliseconds.
    pub timestamp_ms: u64,
    /// Activity category.
    pub kind: SwarmActivityKind,
    /// Redacted human summary.
    pub summary: String,
    /// Correlation IDs for joining with Beads, Agent Mail, RCH, and Git.
    pub ids: SwarmActivityIds,
    /// Additional redacted structured fields.
    pub details: DetailFields,
    /// Redaction metadata.
    pub redaction: SwarmActivityRedaction,
}

/// The model of a [`SwarmActivityLedgerEntry`].
#[verifier::ext_equal]
pub struct EntryView {
    pub schema: Seq<char>,
    pub sequence: u64,
    pub timestamp_ms: u64,
    pub kind: SwarmActivityKind,
    pub summary: Seq<char>,
    pub ids: IdsView,
    pub details: Map<Seq<char>, Seq<char>>,
    pub redaction: RedactionView,
}

impl EntryView {
    /// Whether the entry uses the current schema.
    pub open spec fn is_current(self) -> bool {
        self.schema == SWARM_ACTIVITY_LEDGER_SCHEMA@
    }
}

impl View for SwarmActivityLedgerEntry {
    type V = EntryView;

    open spec fn view(&self) -> EntryView {
        EntryView {
            schema: self.schema@,
            sequence: self.sequence,
            timestamp_ms: self.timestamp_ms,
            kind: self.kind,
            summary: self.summary@,
            ids: self.ids@,
            details: self.details@,
            redaction: self.redaction@,
        }
    }
}

/// The models of a list of entries.
pub open spec fn entry_views(entries: Seq<SwarmActivityLedgerEntry>) -> Seq<EntryView> {
    entries.map_values(|e: SwarmActivityLedgerEntry| e@)
}

impl Clone for SwarmActivityLedgerEntry {
    fn clone(&self) -> (r: Self)
        ensures
            r@ == self@,
    {
        SwarmActivityLedgerEntry {
            schema: self.schema.as_str().to_owned(),
            sequence: self.sequence,
            timestamp_ms: self.timestamp_ms,
            kind: self.kind,
            summary: self.summary.as_str().to_owned(),
            ids: self.ids.clone(),
            details: self.details.clone(),
            redaction: self.redaction.clone(),
        }
    }
}

impl SwarmActivityLedgerEntry {
    /// Return structured redacted detail fields.
    #[must_use]
    pub fn details(&self) -> (r: &SortedMap<String, String>)
        ensures
            r@ == self@.details,
    {
        &self.details.texts
    }

    /// True when the entry uses the current schema.
    #[must_use]
    pub fn has_current_schema(&self) -> (r: bool)
        ensures
            r == self@.is_current(),
            r == (self.schema@ == SWARM_ACTIVITY_LEDGER_SCHEMA@),
    {
        same_text(self.schema.as_str(), SWARM_ACTIVITY_LEDGER_SCHEMA)
    }
}

} // verus!
