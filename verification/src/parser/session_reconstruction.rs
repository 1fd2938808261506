//! Deterministic session reconstruction from parsed Minecraft log evidence.
//!
//! Callers group logs by Minecraft instance and assign `source_order` from the
//! oldest rotation to the newest. A disconnect closes an activity destination,
//! not the game process; only client stopping, a clean shutdown, a crash, a
//! later startup, or a conservative source tail closes a play session.
//!
//! Every step of the algorithm has a specification function below and the
//! executable code is proved to compute exactly the specified result.

use vstd::prelude::*;

use crate::calendar::OffsetDateTime;
use crate::domain::confidence::{confidence_from_score, Confidence};
use crate::parser::log_parser::{evidence_views, EvidenceView, ProvenanceView};
use crate::parser::minecraft_log::{
    tag_of, timestamp_from_local_spec, CrashMarker, EventView, EvidenceProvenance, EvidenceTag,
    EvidenceTimestamp, LogEvidence, MinecraftLogEvent, ParsedLog, TimestampOrigin,
};

verus! {

pub const RECONSTRUCTION_REVISION: u16 = 2;

/// The largest magnitude of a sequence value that reconstruction accepts;
/// every timestamp of a representable date lies far inside it.
pub const MAX_SEQUENCE_MAGNITUDE: i64 = 1_000_000_000_000_000_000;

#[derive(Clone, Copy, PartialEq, Eq, Debug, Structural)]
pub enum SessionStartBoundary {
    ExplicitStartup,
    InferredFromActivity,
}

#[derive(Clone, Copy, PartialEq, Eq, Debug, Structural)]
pub enum SessionEndBoundary {
    CleanShutdown,
    ClientStopping,
    Crash,
    LastEvidenceBeforeNextStart,
    SourceEndHint,
    TruncatedAtLastEvidence,
}

#[derive(Clone, Copy, PartialEq, Eq, Debug, Structural)]
pub enum ReconstructedExitKind {
    Clean,
    Crash,
    Unknown,
}

#[derive(Clone, PartialEq, Eq, Debug)]
pub enum SessionDestination {
    Server { address: String },
    LocalWorld { world_name: Option<String> },
}

pub enum DestinationView {
    Server(Seq<char>),
    LocalWorld(Option<Seq<char>>),
}

impl View for SessionDestination {
    type V = DestinationView;

    open spec fn view(&self) -> DestinationView {
        match self {
            SessionDestination::Server { address } => DestinationView::Server(address@),
            SessionDestination::LocalWorld { world_name } => DestinationView::LocalWorld(
                crate::parser::minecraft_log::opt_view(*world_name),
            ),
        }
    }
}

#[derive(Clone, Copy, PartialEq, Eq, Debug, Structural)]
pub enum SessionEvidenceRole {
    Start,
    End,
    Version,
    Destination,
    Exit,
    Supporting,
}

#[derive(Clone, PartialEq, Eq, Debug)]
pub struct SessionEvidenceLink {
    pub evidence_tag: EvidenceTag,
    pub role: SessionEvidenceRole,
    pub confidence_score: u8,
    pub provenance: EvidenceProvenance,
}

pub struct LinkView {
    pub evidence_tag: EvidenceTag,
    pub role: SessionEvidenceRole,
    pub confidence_score: u8,
    pub provenance: ProvenanceView,
}

impl View for SessionEvidenceLink {
    type V = LinkView;

    open spec fn view(&self) -> LinkView {
        LinkView {
            evidence_tag: self.evidence_tag,
            role: self.role,
            confidence_score: self.confidence_score,
            provenance: self.provenance@,
        }
    }
}

/// Policy windows of reconstruction, in seconds.
#[derive(Clone, Copy, PartialEq, Eq, Debug, Structural)]
pub struct ReconstructionPolicy {
    /// Multiple startup markers during bootstrap must not split one process.
    pub startup_merge_window_seconds: i64,
    /// An end hint is accepted only this far after the last evidence.
    pub source_end_tail_limit_seconds: i64,
}

impl ReconstructionPolicy {
    pub fn standard() -> (r: ReconstructionPolicy)
        ensures
            r.startup_merge_window_seconds == 120,
            r.source_end_tail_limit_seconds == 900,
    {
        ReconstructionPolicy { startup_merge_window_seconds: 120, source_end_tail_limit_seconds: 900 }
    }
}

impl Default for ReconstructionPolicy {
    fn default() -> (r: ReconstructionPolicy)
        ensures
            r.startup_merge_window_seconds == 120,
            r.source_end_tail_limit_seconds == 900,
    {
        ReconstructionPolicy::standard()
    }
}

#[derive(Clone, Copy, PartialEq, Eq, Debug, Structural)]
pub struct ReconstructionDiagnostics {
    pub duplicate_evidence: u64,
    pub orphan_end_evidence: u64,
    pub orphan_activity_without_timestamp: u64,
    pub startup_without_timestamp: u64,
    pub non_monotonic_evidence: u64,
    pub zero_duration_sessions: u64,
}

#[derive(Clone, PartialEq, Eq, Debug)]
pub struct ReconstructedSession {
    pub started_at: EvidenceTimestamp,
    pub ended_at: EvidenceTimestamp,
    pub duration_seconds: u64,
    pub start_boundary: SessionStartBoundary,
    pub end_boundary: SessionEndBoundary,
    pub exit_kind: ReconstructedExitKind,
    pub confidence_score: u8,
    pub confidence_label: Confidence,
    pub reconstruction_revision: u16,
    pub versions: Vec<String>,
    pub destinations: Vec<SessionDestination>,
    pub source_ids: Vec<String>,
    pub evidence: Vec<SessionEvidenceLink>,
}

pub struct SessionView {
    pub started_at: EvidenceTimestamp,
    pub ended_at: EvidenceTimestamp,
    pub duration_seconds: u64,
    pub start_boundary: SessionStartBoundary,
    pub end_boundary: SessionEndBoundary,
    pub exit_kind: ReconstructedExitKind,
    pub confidence_score: u8,
    pub confidence_label: Confidence,
    pub reconstruction_revision: u16,
    pub versions: Seq<Seq<char>>,
    pub destinations: Seq<DestinationView>,
    pub source_ids: Seq<Seq<char>>,
    pub evidence: Seq<LinkView>,
}

pub open spec fn string_views(v: Seq<String>) -> Seq<Seq<char>> {
    v.map_values(|s: String| s@)
}

pub open spec fn destination_views(v: Seq<SessionDestination>) -> Seq<DestinationView> {
    v.map_values(|d: SessionDestination| d@)
}

pub open spec fn link_views(v: Seq<SessionEvidenceLink>) -> Seq<LinkView> {
    v.map_values(|l: SessionEvidenceLink| l@)
}

impl View for ReconstructedSession {
    type V = SessionView;

    open spec fn view(&self) -> SessionView {
        SessionView {
            started_at: self.started_at,
            ended_at: self.ended_at,
            duration_seconds: self.duration_seconds,
            start_boundary: self.start_boundary,
            end_boundary: self.end_boundary,
            exit_kind: self.exit_kind,
            confidence_score: self.confidence_score,
            confidence_label: self.confidence_label,
            reconstruction_revision: self.reconstruction_revision,
            versions: string_views(self.versions@),
            destinations: destination_views(self.destinations@),
            source_ids: string_views(self.source_ids@),
            evidence: link_views(self.evidence@),
        }
    }
}

#[derive(Clone, PartialEq, Eq, Debug)]
pub struct ReconstructionResult {
    pub sessions: Vec<ReconstructedSession>,
    pub diagnostics: ReconstructionDiagnostics,
}

pub struct ResultView {
    pub sessions: Seq<SessionView>,
    pub diagnostics: ReconstructionDiagnostics,
}

pub open spec fn session_views(v: Seq<ReconstructedSession>) -> Seq<SessionView> {
    v.map_values(|s: ReconstructedSession| s@)
}

impl View for ReconstructionResult {
    type V = ResultView;

    open spec fn view(&self) -> ResultView {
        ResultView { sessions: session_views(self.sessions@), diagnostics: self.diagnostics }
    }
}

/// A proposed end of the active session.
#[derive(Clone, Copy, PartialEq, Eq, Debug, Structural)]
pub struct EndCandidate {
    pub timestamp: EvidenceTimestamp,
    pub boundary: SessionEndBoundary,
    pub exit_kind: ReconstructedExitKind,
}

/// The session being assembled.
pub struct SessionBuilder {
    pub started_at: EvidenceTimestamp,
    pub start_boundary: SessionStartBoundary,
    pub last_timestamp: EvidenceTimestamp,
    pub last_source_end_hint: Option<OffsetDateTime>,
    pub pending_stop: Option<EndCandidate>,
    pub versions: Vec<String>,
    pub destinations: Vec<SessionDestination>,
    pub has_named_local_world: bool,
    pub evidence: Vec<SessionEvidenceLink>,
}

pub struct BuilderView {
    pub started_at: EvidenceTimestamp,
    pub start_boundary: SessionStartBoundary,
    pub last_timestamp: EvidenceTimestamp,
    pub last_source_end_hint: Option<OffsetDateTime>,
    pub pending_stop: Option<EndCandidate>,
    pub versions: Seq<Seq<char>>,
    pub destinations: Seq<DestinationView>,
    pub has_named_local_world: bool,
    pub evidence: Seq<LinkView>,
}

impl View for SessionBuilder {
    type V = BuilderView;

    open spec fn view(&self) -> BuilderView {
        BuilderView {
            started_at: self.started_at,
            start_boundary: self.start_boundary,
            last_timestamp: self.last_timestamp,
            last_source_end_hint: self.last_source_end_hint,
            pending_stop: self.pending_stop,
            versions: string_views(self.versions@),
            destinations: destination_views(self.destinations@),
            has_named_local_world: self.has_named_local_world,
            evidence: link_views(self.evidence@),
        }
    }
}

pub open spec fn sat_inc(a: u64) -> u64 {
    if a == u64::MAX {
        a
    } else {
        (a + 1) as u64
    }
}

pub fn sat_inc_exec(a: u64) -> (r: u64)
    ensures
        r == sat_inc(a),
{
    if a == u64::MAX {
        a
    } else {
        a + 1
    }
}

/// The link that evidence contributes in a role.
pub open spec fn link_of(e: EvidenceView, role: SessionEvidenceRole) -> LinkView {
    LinkView {
        evidence_tag: tag_of(e.event),
        role,
        confidence_score: e.confidence_score,
        provenance: e.provenance,
    }
}

/// `link`: records evidence in a role unless the same link is already recorded.
pub open spec fn link_spec(b: BuilderView, e: EvidenceView, role: SessionEvidenceRole) -> BuilderView {
    let l = link_of(e, role);
    if b.evidence.contains(l) {
        b
    } else {
        BuilderView { evidence: b.evidence.push(l), ..b }
    }
}

/// `observe_timestamp`: keeps the latest comparable timestamp; a regression is counted.
pub open spec fn observe_spec(
    b: BuilderView,
    ts: EvidenceTimestamp,
    d: ReconstructionDiagnostics,
) -> (BuilderView, ReconstructionDiagnostics) {
    match ts.sequence_millis {
        None => (b, d),
        Some(candidate) => match b.last_timestamp.sequence_millis {
            None => (BuilderView { last_timestamp: ts, ..b }, d),
            Some(last) => if candidate >= last {
                (BuilderView { last_timestamp: ts, ..b }, d)
            } else {
                (b, ReconstructionDiagnostics { non_monotonic_evidence: sat_inc(d.non_monotonic_evidence), ..d })
            },
        },
    }
}

/// `observe_source_end_hint`: keeps the latest end hint.
pub open spec fn end_hint_spec(b: BuilderView, hint: Option<OffsetDateTime>) -> BuilderView {
    match hint {
        None => b,
        Some(c) => match b.last_source_end_hint {
            None => BuilderView { last_source_end_hint: Some(c), ..b },
            Some(current) => if offset_datetime_gt(c, current) {
                BuilderView { last_source_end_hint: Some(c), ..b }
            } else {
                b
            },
        },
    }
}

/// UTC whole seconds of an offset date-time.
pub open spec fn utc_seconds(a: OffsetDateTime) -> int {
    crate::calendar::epoch_day(a.local.date) * 86_400 + a.local.time.secs() - a.offset_seconds
}

/// Offset date-times compare by their UTC instant: whole seconds, then fraction.
pub open spec fn offset_datetime_gt(a: OffsetDateTime, b: OffsetDateTime) -> bool {
    utc_seconds(a) > utc_seconds(b) || (utc_seconds(a) == utc_seconds(b) && a.local.time.nano
        > b.local.time.nano)
}

pub fn offset_datetime_after(a: OffsetDateTime, b: OffsetDateTime) -> (r: bool)
    requires
        a.wf(),
        b.wf(),
    ensures
        r == offset_datetime_gt(a, b),
{
    proof {
        crate::calendar::lemma_epoch_day_bounds(a.local.date);
        crate::calendar::lemma_epoch_day_bounds(b.local.date);
    }
    let ua = a.local.date.epoch_day_exec() * 86_400 + a.local.time.secs_exec() - a.offset_seconds as i64;
    let ub = b.local.date.epoch_day_exec() * 86_400 + b.local.time.secs_exec() - b.offset_seconds as i64;
    ua > ub || (ua == ub && a.local.time.nano > b.local.time.nano)
}

pub open spec fn add_version_spec(b: BuilderView, v: Seq<char>) -> BuilderView {
    if b.versions.contains(v) {
        b
    } else {
        BuilderView { versions: b.versions.push(v), ..b }
    }
}

pub open spec fn unnamed_world() -> DestinationView {
    DestinationView::LocalWorld(None)
}

/// `add_destination`: a named local world supersedes the unnamed one.
pub open spec fn add_destination_spec(b: BuilderView, dest: DestinationView) -> BuilderView {
    let b1 = match dest {
        DestinationView::LocalWorld(Some(_)) => if !b.has_named_local_world {
            BuilderView {
                destinations: b.destinations.filter(|x: DestinationView| x != unnamed_world()),
                has_named_local_world: true,
                ..b
            }
        } else {
            b
        },
        _ => b,
    };
    let skip = match dest {
        DestinationView::LocalWorld(None) => b.has_named_local_world,
        _ => false,
    };
    if skip || b1.destinations.contains(dest) {
        b1
    } else {
        BuilderView { destinations: b1.destinations.push(dest), ..b1 }
    }
}

/// A new session started by `e`.
pub open spec fn new_builder_spec(
    e: EvidenceView,
    boundary: SessionStartBoundary,
    hint: Option<OffsetDateTime>,
) -> BuilderView {
    BuilderView {
        started_at: e.timestamp,
        start_boundary: boundary,
        last_timestamp: e.timestamp,
        last_source_end_hint: hint,
        pending_stop: None,
        versions: Seq::empty(),
        destinations: Seq::empty(),
        has_named_local_world: false,
        evidence: seq![link_of(e, SessionEvidenceRole::Start)],
    }
}


pub fn string_eq(a: &String, b: &String) -> (r: bool)
    ensures
        r == (a@ == b@),
{
    a.eq(b)
}

pub fn opt_string_eq(a: &Option<String>, b: &Option<String>) -> (r: bool)
    ensures
        r == (crate::parser::minecraft_log::opt_view(*a) == crate::parser::minecraft_log::opt_view(
            *b,
        )),
{
    match (a, b) {
        (Some(x), Some(y)) => string_eq(x, y),
        (None, None) => true,
        _ => false,
    }
}

impl SessionDestination {
    pub fn same_as(&self, other: &SessionDestination) -> (r: bool)
        ensures
            r == (self@ == other@),
    {
        match (self, other) {
            (SessionDestination::Server { address: a }, SessionDestination::Server { address: b }) => string_eq(a, b),
            (
                SessionDestination::LocalWorld { world_name: a },
                SessionDestination::LocalWorld { world_name: b },
            ) => opt_string_eq(a, b),
            _ => false,
        }
    }

    pub fn copy(&self) -> (r: SessionDestination)
        ensures
            r@ == self@,
    {
        match self {
            SessionDestination::Server { address } => SessionDestination::Server {
                address: address.clone(),
            },
            SessionDestination::LocalWorld { world_name } => SessionDestination::LocalWorld {
                world_name: crate::parser::minecraft_log::copy_opt_string(world_name),
            },
        }
    }
}

pub fn provenance_eq(a: &EvidenceProvenance, b: &EvidenceProvenance) -> (r: bool)
    ensures
        r == (a@ == b@),
{
    string_eq(&a.source_id, &b.source_id) && a.source_order == b.source_order && a.line_number
        == b.line_number && a.byte_start == b.byte_start && a.byte_end == b.byte_end && a.rule
        == b.rule
}

pub fn copy_provenance(p: &EvidenceProvenance) -> (r: EvidenceProvenance)
    ensures
        r@ == p@,
{
    EvidenceProvenance {
        source_id: p.source_id.clone(),
        source_order: p.source_order,
        line_number: p.line_number,
        byte_start: p.byte_start,
        byte_end: p.byte_end,
        rule: p.rule,
    }
}

impl SessionEvidenceLink {
    pub fn same_as(&self, other: &SessionEvidenceLink) -> (r: bool)
        ensures
            r == (self@ == other@),
    {
        self.evidence_tag == other.evidence_tag && self.role == other.role && self.confidence_score
            == other.confidence_score && provenance_eq(&self.provenance, &other.provenance)
    }
}

fn contains_link(v: &Vec<SessionEvidenceLink>, l: &SessionEvidenceLink) -> (r: bool)
    ensures
        r == link_views(v@).contains(l@),
{
    let mut i: usize = 0;
    while i < v.len()
        invariant
            i <= v@.len(),
            forall|k: int| 0 <= k < i ==> v@[k]@ != l@,
        decreases v@.len() - i,
    {
        if v[i].same_as(l) {
            assert(link_views(v@)[i as int] == l@);
            return true;
        }
        i = i + 1;
    }
    proof {
        if link_views(v@).contains(l@) {
            let k = choose|k: int| 0 <= k < link_views(v@).len() && link_views(v@)[k] == l@;
            assert(v@[k]@ == l@);
        }
    }
    false
}

fn contains_string(v: &Vec<String>, s: &String) -> (r: bool)
    ensures
        r == string_views(v@).contains(s@),
{
    let mut i: usize = 0;
    while i < v.len()
        invariant
            i <= v@.len(),
            forall|k: int| 0 <= k < i ==> v@[k]@ != s@,
        decreases v@.len() - i,
    {
        if string_eq(&v[i], s) {
            assert(string_views(v@)[i as int] == s@);
            return true;
        }
        i = i + 1;
    }
    proof {
        if string_views(v@).contains(s@) {
            let k = choose|k: int| 0 <= k < string_views(v@).len() && string_views(v@)[k] == s@;
            assert(v@[k]@ == s@);
        }
    }
    false
}

fn contains_destination(v: &Vec<SessionDestination>, d: &SessionDestination) -> (r: bool)
    ensures
        r == destination_views(v@).contains(d@),
{
    let mut i: usize = 0;
    while i < v.len()
        invariant
            i <= v@.len(),
            forall|k: int| 0 <= k < i ==> v@[k]@ != d@,
        decreases v@.len() - i,
    {
        if v[i].same_as(d) {
            assert(destination_views(v@)[i as int] == d@);
            return true;
        }
        i = i + 1;
    }
    proof {
        if destination_views(v@).contains(d@) {
            let k = choose|k: int| 0 <= k < destination_views(v@).len() && destination_views(v@)[k]
                == d@;
            assert(v@[k]@ == d@);
        }
    }
    false
}

/// The destinations other than the unnamed local world, in order.
fn without_unnamed_world(v: Vec<SessionDestination>) -> (r: Vec<SessionDestination>)
    ensures
        destination_views(r@) == destination_views(v@).filter(
            |x: DestinationView| x != unnamed_world(),
        ),
{
    let mut r: Vec<SessionDestination> = Vec::new();
    let mut i: usize = 0;
    let unnamed = SessionDestination::LocalWorld { world_name: None };
    while i < v.len()
        invariant
            i <= v@.len(),
            unnamed@ == unnamed_world(),
            destination_views(r@) == destination_views(v@).take(i as int).filter(
                |x: DestinationView| x != unnamed_world(),
            ),
        decreases v@.len() - i,
    {
        let ghost before = destination_views(v@).take(i as int);
        assert(destination_views(v@).take(i + 1) =~= before.push(v@[i as int]@));
        proof {
            reveal_with_fuel(Seq::<DestinationView>::filter, 1);
            assert(before.push(v@[i as int]@).drop_last() =~= before);
        }
        if !v[i].same_as(&unnamed) {
            r.push(v[i].copy());
            assert(destination_views(r@) =~= destination_views(r@).drop_last().push(v@[i as int]@));
        }
        i = i + 1;
        assert(destination_views(r@) == destination_views(v@).take(i as int).filter(
            |x: DestinationView| x != unnamed_world(),
        ));
    }
    assert(destination_views(v@).take(v@.len() as int) =~= destination_views(v@));
    r
}

impl SessionBuilder {
    pub fn link(&mut self, e: &LogEvidence, role: SessionEvidenceRole)
        ensures
            final(self)@ == link_spec(old(self)@, e@, role),
    {
        let l = SessionEvidenceLink {
            evidence_tag: e.event.tag(),
            role,
            confidence_score: e.confidence_score,
            provenance: copy_provenance(&e.provenance),
        };
        if contains_link(&self.evidence, &l) {
            return;
        }
        self.evidence.push(l);
        assert(link_views(self.evidence@) =~= link_views(old(self).evidence@).push(
            link_of(e@, role),
        ));
    }

    pub fn observe_timestamp(&mut self, ts: &EvidenceTimestamp, d: &mut ReconstructionDiagnostics)
        ensures
            (final(self)@, *final(d)) == observe_spec(old(self)@, *ts, *old(d)),
    {
        let candidate = match ts.sequence_millis {
            Some(c) => c,
            None => return,
        };
        let last = match self.last_timestamp.sequence_millis {
            Some(l) => l,
            None => {
                self.last_timestamp = *ts;
                return;
            },
        };
        if candidate >= last {
            self.last_timestamp = *ts;
        } else {
            d.non_monotonic_evidence = sat_inc_exec(d.non_monotonic_evidence);
        }
    }

    pub fn observe_source_end_hint(&mut self, hint: Option<OffsetDateTime>)
        requires
            hint matches Some(h) ==> h.wf(),
            old(self).last_source_end_hint matches Some(h) ==> h.wf(),
        ensures
            final(self)@ == end_hint_spec(old(self)@, hint),
            final(self).last_source_end_hint matches Some(h) ==> h.wf(),
    {
        let c = match hint {
            Some(c) => c,
            None => return,
        };
        match self.last_source_end_hint {
            None => {
                self.last_source_end_hint = Some(c);
            },
            Some(current) => {
                if offset_datetime_after(c, current) {
                    self.last_source_end_hint = Some(c);
                }
            },
        }
    }

    pub fn add_version(&mut self, version: &String)
        ensures
            final(self)@ == add_version_spec(old(self)@, version@),
    {
        if contains_string(&self.versions, version) {
            return;
        }
        self.versions.push(version.clone());
        assert(string_views(self.versions@) =~= string_views(old(self).versions@).push(version@));
    }

    pub fn add_destination(&mut self, destination: SessionDestination)
        ensures
            final(self)@ == add_destination_spec(old(self)@, destination@),
    {
        let had_named = self.has_named_local_world;
        let named = match &destination {
            SessionDestination::LocalWorld { world_name: Some(_) } => true,
            _ => false,
        };
        let unnamed = match &destination {
            SessionDestination::LocalWorld { world_name: None } => true,
            _ => false,
        };
        if named && !self.has_named_local_world {
            let mut current: Vec<SessionDestination> = Vec::new();
            std::mem::swap(&mut current, &mut self.destinations);
            self.destinations = without_unnamed_world(current);
            self.has_named_local_world = true;
        }
        if unnamed && had_named {
            return;
        }
        if contains_destination(&self.destinations, &destination) {
            return;
        }
        let ghost before = destination_views(self.destinations@);
        self.destinations.push(destination);
        assert(destination_views(self.destinations@) =~= before.push(destination@));
    }

    pub fn new(e: &LogEvidence, boundary: SessionStartBoundary, hint: Option<OffsetDateTime>) -> (r:
        SessionBuilder)
        ensures
            r@ == new_builder_spec(e@, boundary, hint),
    {
        let mut evidence: Vec<SessionEvidenceLink> = Vec::new();
        evidence.push(
            SessionEvidenceLink {
                evidence_tag: e.event.tag(),
                role: SessionEvidenceRole::Start,
                confidence_score: e.confidence_score,
                provenance: copy_provenance(&e.provenance),
            },
        );
        let r = SessionBuilder {
            started_at: e.timestamp,
            start_boundary: boundary,
            last_timestamp: e.timestamp,
            last_source_end_hint: hint,
            pending_stop: None,
            versions: Vec::new(),
            destinations: Vec::new(),
            has_named_local_world: false,
            evidence,
        };
        assert(string_views(r.versions@) =~= Seq::<Seq<char>>::empty());
        assert(destination_views(r.destinations@) =~= Seq::<DestinationView>::empty());
        assert(link_views(r.evidence@) =~= seq![link_of(e@, SessionEvidenceRole::Start)]);
        r
    }
}


/// Sequence values within the accepted magnitude.
pub open spec fn seq_ok(ts: EvidenceTimestamp) -> bool {
    ts.sequence_millis matches Some(v) ==> -MAX_SEQUENCE_MAGNITUDE <= v <= MAX_SEQUENCE_MAGNITUDE
}

pub open spec fn builder_ok(b: BuilderView) -> bool {
    &&& seq_ok(b.started_at)
    &&& seq_ok(b.last_timestamp)
    &&& b.pending_stop matches Some(c) ==> seq_ok(c.timestamp)
    &&& b.last_source_end_hint matches Some(h) ==> h.wf()
    &&& b.evidence.len() > 0
}

/// Rust's `/` on integers: division truncating toward zero.
pub open spec fn trunc_div(a: int, d: int) -> int {
    if a >= 0 {
        a / d
    } else {
        -((-a) / d)
    }
}

pub open spec fn elapsed_millis_spec(start: EvidenceTimestamp, end: EvidenceTimestamp) -> Option<int> {
    match (end.sequence_millis, start.sequence_millis) {
        (Some(e), Some(s)) => Some(e - s),
        _ => None,
    }
}

pub open spec fn elapsed_seconds_spec(start: EvidenceTimestamp, end: EvidenceTimestamp) -> Option<int> {
    match elapsed_millis_spec(start, end) {
        Some(m) => Some(trunc_div(m, 1000)),
        None => None,
    }
}

pub fn elapsed_millis(start: &EvidenceTimestamp, end: &EvidenceTimestamp) -> (r: Option<i64>)
    requires
        seq_ok(*start),
        seq_ok(*end),
    ensures
        r matches Some(v) ==> elapsed_millis_spec(*start, *end) == Some(v as int),
        r is None ==> elapsed_millis_spec(*start, *end) is None,
{
    match (end.sequence_millis, start.sequence_millis) {
        (Some(e), Some(s)) => Some(e - s),
        _ => None,
    }
}

pub fn elapsed_seconds(start: &EvidenceTimestamp, end: &EvidenceTimestamp) -> (r: Option<i64>)
    requires
        seq_ok(*start),
        seq_ok(*end),
    ensures
        r matches Some(v) ==> elapsed_seconds_spec(*start, *end) == Some(v as int),
        r is None ==> elapsed_seconds_spec(*start, *end) is None,
{
    match elapsed_millis(start, end) {
        Some(m) => Some(
            if m >= 0 {
                m / 1000
            } else {
                -((-m) / 1000)
            },
        ),
        None => None,
    }
}

/// The confidence score of a finished session.
pub open spec fn session_confidence_spec(b: BuilderView, c: EndCandidate, duration_seconds: u64) -> u8 {
    let base: int = match b.start_boundary {
        SessionStartBoundary::ExplicitStartup => 72,
        SessionStartBoundary::InferredFromActivity => 52,
    };
    let end: int = match c.boundary {
        SessionEndBoundary::CleanShutdown => 20,
        SessionEndBoundary::ClientStopping => 16,
        SessionEndBoundary::Crash => 18,
        SessionEndBoundary::SourceEndHint => 5,
        SessionEndBoundary::LastEvidenceBeforeNextStart => 0,
        SessionEndBoundary::TruncatedAtLastEvidence => -4,
    };
    let s1 = base + end + (if b.versions.len() > 0 { 4int } else { 0int }) + (if b.destinations.len()
        > 0 { 4int } else { 0int }) - (if duration_seconds == 0 { 20int } else { 0int });
    let s2 = if b.start_boundary == SessionStartBoundary::InferredFromActivity && s1 > 79 {
        79
    } else {
        s1
    };
    let cap: int = match c.boundary {
        SessionEndBoundary::SourceEndHint => 69,
        SessionEndBoundary::LastEvidenceBeforeNextStart => 54,
        SessionEndBoundary::TruncatedAtLastEvidence => 54,
        _ => 100,
    };
    let s3 = if s2 > cap { cap } else { s2 };
    let s4 = if duration_seconds == 0 && s3 > 54 { 54 } else { s3 };
    (if s4 < 0 { 0 } else if s4 > 100 { 100 } else { s4 }) as u8
}

/// Lexicographic order of character sequences (the order of `String`).
pub open spec fn lex_lt(a: Seq<char>, b: Seq<char>) -> bool
    decreases a.len(),
{
    if a.len() == 0 {
        b.len() > 0
    } else if b.len() == 0 {
        false
    } else if (a[0] as u32) < (b[0] as u32) {
        true
    } else if a[0] == b[0] {
        lex_lt(a.drop_first(), b.drop_first())
    } else {
        false
    }
}

/// Inserts into an ascending list of distinct values, keeping it so.
pub open spec fn insert_sorted_unique(s: Seq<Seq<char>>, x: Seq<char>) -> Seq<Seq<char>>
    decreases s.len(),
{
    if s.len() == 0 {
        seq![x]
    } else if x == s[0] {
        s
    } else if lex_lt(x, s[0]) {
        seq![x] + s
    } else {
        seq![s[0]] + insert_sorted_unique(s.drop_first(), x)
    }
}

/// The distinct source ids of the links, ascending.
pub open spec fn sorted_source_ids(links: Seq<LinkView>) -> Seq<Seq<char>>
    decreases links.len(),
{
    if links.len() == 0 {
        Seq::empty()
    } else {
        insert_sorted_unique(sorted_source_ids(links.drop_last()), links.last().provenance.source_id)
    }
}

/// `finish_session`: closes the builder with the candidate and appends the session.
pub open spec fn finish_spec(b: BuilderView, c: EndCandidate, res: ResultView) -> ResultView {
    let d = res.diagnostics;
    let (duration_millis, cand, d1) = match (b.started_at.sequence_millis, c.timestamp.sequence_millis) {
        (Some(s), Some(e)) => if e >= s {
            (e - s, c, d)
        } else {
            let m = match elapsed_millis_spec(b.started_at, b.last_timestamp) {
                Some(v) => v,
                None => 0,
            };
            (
                if m < 0 { 0 } else { m },
                EndCandidate { timestamp: b.last_timestamp, ..c },
                ReconstructionDiagnostics { non_monotonic_evidence: sat_inc(d.non_monotonic_evidence), ..d },
            )
        },
        _ => (0int, c, d),
    };
    let q = trunc_div(duration_millis, 1000);
    let duration_seconds = (if q < 0 { 0 } else { q }) as u64;
    let d2 = if duration_seconds == 0 {
        ReconstructionDiagnostics { zero_duration_sessions: sat_inc(d1.zero_duration_sessions), ..d1 }
    } else {
        d1
    };
    let score = session_confidence_spec(b, cand, duration_seconds);
    ResultView {
        sessions: res.sessions.push(
            SessionView {
                started_at: b.started_at,
                ended_at: cand.timestamp,
                duration_seconds,
                start_boundary: b.start_boundary,
                end_boundary: cand.boundary,
                exit_kind: cand.exit_kind,
                confidence_score: score,
                confidence_label: confidence_from_score(score),
                reconstruction_revision: RECONSTRUCTION_REVISION,
                versions: b.versions,
                destinations: b.destinations,
                source_ids: sorted_source_ids(b.evidence),
                evidence: b.evidence,
            },
        ),
        diagnostics: d2,
    }
}

pub fn session_confidence(b: &SessionBuilder, c: &EndCandidate, duration_seconds: u64) -> (r: u8)
    ensures
        r == session_confidence_spec(b@, *c, duration_seconds),
{
    let base: i16 = match b.start_boundary {
        SessionStartBoundary::ExplicitStartup => 72,
        SessionStartBoundary::InferredFromActivity => 52,
    };
    let end: i16 = match c.boundary {
        SessionEndBoundary::CleanShutdown => 20,
        SessionEndBoundary::ClientStopping => 16,
        SessionEndBoundary::Crash => 18,
        SessionEndBoundary::SourceEndHint => 5,
        SessionEndBoundary::LastEvidenceBeforeNextStart => 0,
        SessionEndBoundary::TruncatedAtLastEvidence => -4,
    };
    let mut score: i16 = base + end;
    if b.versions.len() > 0 {
        score = score + 4;
    }
    if b.destinations.len() > 0 {
        score = score + 4;
    }
    if duration_seconds == 0 {
        score = score - 20;
    }
    if b.start_boundary == SessionStartBoundary::InferredFromActivity && score > 79 {
        score = 79;
    }
    let cap: i16 = match c.boundary {
        SessionEndBoundary::SourceEndHint => 69,
        SessionEndBoundary::LastEvidenceBeforeNextStart => 54,
        SessionEndBoundary::TruncatedAtLastEvidence => 54,
        _ => 100,
    };
    if score > cap {
        score = cap;
    }
    if duration_seconds == 0 && score > 54 {
        score = 54;
    }
    if score < 0 {
        0
    } else if score > 100 {
        100
    } else {
        score as u8
    }
}

/// `String` order, computed on characters.
pub fn string_lt(a: &String, b: &String) -> (r: bool)
    ensures
        r == lex_lt(a@, b@),
{
    let x = crate::text::chars_of(a.as_str());
    let y = crate::text::chars_of(b.as_str());
    let mut i: usize = 0;
    assert(x@.skip(0) =~= x@);
    assert(y@.skip(0) =~= y@);
    while i < x.len() && i < y.len() && x[i] == y[i]
        invariant
            i <= x@.len(),
            i <= y@.len(),
            x@ == a@,
            y@ == b@,
            lex_lt(a@, b@) == lex_lt(x@.skip(i as int), y@.skip(i as int)),
        decreases x@.len() - i,
    {
        assert(x@.skip(i as int).drop_first() =~= x@.skip(i + 1));
        assert(y@.skip(i as int).drop_first() =~= y@.skip(i + 1));
        i = i + 1;
    }
    proof {
        if i < x@.len() {
            assert(x@.skip(i as int)[0] == x@[i as int]);
        }
        if i < y@.len() {
            assert(y@.skip(i as int)[0] == y@[i as int]);
        }
    }
    if i == x.len() {
        i < y.len()
    } else if i == y.len() {
        false
    } else {
        (x[i] as u32) < (y[i] as u32)
    }
}

/// Inserts `x` into an ascending list of distinct strings.
pub fn insert_sorted_string(v: &mut Vec<String>, x: &String)
    ensures
        string_views(final(v)@) == insert_sorted_unique(string_views(old(v)@), x@),
{
    let ghost orig = string_views(v@);
    let mut i: usize = 0;
    assert(orig.skip(0) =~= orig);
    assert(orig.take(0) + insert_sorted_unique(orig, x@) =~= insert_sorted_unique(orig, x@));
    while i < v.len()
        invariant
            i <= v@.len(),
            v@ == old(v)@,
            orig == string_views(v@),
            insert_sorted_unique(orig, x@) == orig.take(i as int) + insert_sorted_unique(
                orig.skip(i as int),
                x@,
            ),
        decreases v@.len() - i,
    {
        assert(orig.skip(i as int)[0] == orig[i as int]);
        if string_eq(&v[i], x) {
            assert(orig.take(i as int) + orig.skip(i as int) =~= orig);
            return;
        }
        if string_lt(x, &v[i]) {
            v.insert(i, x.clone());
            assert(string_views(v@) =~= orig.take(i as int) + (seq![x@] + orig.skip(i as int)));
            return;
        }
        assert(orig.skip(i as int).drop_first() =~= orig.skip(i + 1));
        assert(orig.take(i as int) + seq![orig[i as int]] =~= orig.take(i + 1));
        i = i + 1;
    }
    v.push(x.clone());
    assert(orig.skip(i as int) =~= Seq::<Seq<char>>::empty());
    assert(orig.take(i as int) =~= orig);
    assert(string_views(v@) =~= orig.push(x@));
}

/// The distinct source ids of the links, ascending.
pub fn collect_source_ids(links: &Vec<SessionEvidenceLink>) -> (r: Vec<String>)
    ensures
        string_views(r@) == sorted_source_ids(link_views(links@)),
{
    let mut r: Vec<String> = Vec::new();
    let mut i: usize = 0;
    assert(link_views(links@).take(0) =~= Seq::<LinkView>::empty());
    assert(string_views(r@) =~= Seq::<Seq<char>>::empty());
    while i < links.len()
        invariant
            i <= links@.len(),
            string_views(r@) == sorted_source_ids(link_views(links@).take(i as int)),
        decreases links@.len() - i,
    {
        insert_sorted_string(&mut r, &links[i].provenance.source_id);
        assert(link_views(links@).take(i + 1).drop_last() =~= link_views(links@).take(i as int));
        i = i + 1;
    }
    assert(link_views(links@).take(links@.len() as int) =~= link_views(links@));
    r
}

/// `finish_session`.
pub fn finish_session(b: SessionBuilder, c: EndCandidate, result: &mut ReconstructionResult)
    requires
        builder_ok(b@),
        seq_ok(c.timestamp),
    ensures
        final(result)@ == finish_spec(b@, c, old(result)@),
{
    let mut candidate = c;
    let duration_millis: i64 = match (b.started_at.sequence_millis, c.timestamp.sequence_millis) {
        (Some(s), Some(e)) => {
            if e >= s {
                e - s
            } else {
                result.diagnostics.non_monotonic_evidence = sat_inc_exec(
                    result.diagnostics.non_monotonic_evidence,
                );
                candidate.timestamp = b.last_timestamp;
                let m = match elapsed_millis(&b.started_at, &b.last_timestamp) {
                    Some(v) => v,
                    None => 0,
                };
                if m < 0 {
                    0
                } else {
                    m
                }
            }
        },
        _ => 0,
    };
    let q = duration_millis / 1000;
    let duration_seconds: u64 = if q < 0 {
        0
    } else {
        q as u64
    };
    if duration_seconds == 0 {
        result.diagnostics.zero_duration_sessions = sat_inc_exec(
            result.diagnostics.zero_duration_sessions,
        );
    }
    let score = session_confidence(&b, &candidate, duration_seconds);
    let source_ids = collect_source_ids(&b.evidence);
    let session = ReconstructedSession {
        started_at: b.started_at,
        ended_at: candidate.timestamp,
        duration_seconds,
        start_boundary: b.start_boundary,
        end_boundary: candidate.boundary,
        exit_kind: candidate.exit_kind,
        confidence_score: score,
        confidence_label: Confidence::from_score(score),
        reconstruction_revision: RECONSTRUCTION_REVISION,
        versions: b.versions,
        destinations: b.destinations,
        source_ids,
        evidence: b.evidence,
    };
    let ghost before = session_views(result.sessions@);
    result.sessions.push(session);
    assert(session_views(result.sessions@) =~= before.push(session@));
}


pub proof fn lemma_local_timestamp_bounded(
    local: crate::calendar::LocalDateTime,
    offset: Option<i32>,
    origin: TimestampOrigin,
)
    requires
        local.wf(),
        offset matches Some(o) ==> -86_400 < o < 86_400,
    ensures
        seq_ok(timestamp_from_local_spec(local, offset, origin)),
{
    crate::calendar::lemma_epoch_day_bounds(local.date);
}

/// The end hint as a timestamp (`EvidenceTimestamp::from_datetime`).
pub open spec fn hint_timestamp(h: OffsetDateTime) -> EvidenceTimestamp {
    timestamp_from_local_spec(h.local, Some(h.offset_seconds), TimestampOrigin::LineDateTime)
}

/// `choose_tail_boundary`: the pending stop, or an end hint close after the last evidence.
pub open spec fn choose_tail_spec(b: BuilderView, policy: ReconstructionPolicy) -> Option<EndCandidate> {
    match b.pending_stop {
        Some(c) => Some(c),
        None => match b.last_source_end_hint {
            None => None,
            Some(h) => {
                let ts = hint_timestamp(h);
                match elapsed_seconds_spec(b.last_timestamp, ts) {
                    Some(t) => if 0 <= t <= policy.source_end_tail_limit_seconds {
                        Some(
                            EndCandidate {
                                timestamp: ts,
                                boundary: SessionEndBoundary::SourceEndHint,
                                exit_kind: ReconstructedExitKind::Unknown,
                            },
                        )
                    } else {
                        None
                    },
                    None => None,
                }
            },
        },
    }
}

pub fn choose_tail_boundary(b: &SessionBuilder, policy: &ReconstructionPolicy) -> (r: Option<EndCandidate>)
    requires
        builder_ok(b@),
    ensures
        r == choose_tail_spec(b@, *policy),
        r matches Some(c) ==> seq_ok(c.timestamp),
{
    if let Some(c) = b.pending_stop {
        return Some(c);
    }
    let h = match b.last_source_end_hint {
        Some(h) => h,
        None => return None,
    };
    let ts = EvidenceTimestamp::from_datetime(h);
    proof {
        lemma_local_timestamp_bounded(h.local, Some(h.offset_seconds), TimestampOrigin::LineDateTime);
    }
    match elapsed_seconds(&b.last_timestamp, &ts) {
        Some(t) => {
            if 0 <= t && t <= policy.source_end_tail_limit_seconds {
                Some(
                    EndCandidate {
                        timestamp: ts,
                        boundary: SessionEndBoundary::SourceEndHint,
                        exit_kind: ReconstructedExitKind::Unknown,
                    },
                )
            } else {
                None
            }
        },
        None => None,
    }
}

pub open spec fn active_view(a: Option<SessionBuilder>) -> Option<BuilderView> {
    match a {
        Some(b) => Some(b@),
        None => None,
    }
}

pub open spec fn active_ok(a: Option<BuilderView>) -> bool {
    a matches Some(b) ==> builder_ok(b)
}

pub open spec fn evidence_ok(e: EvidenceView) -> bool {
    seq_ok(e.timestamp)
}

/// `prepare_for_activity`: a pending stop closes the session; activity without
/// a session starts an inferred one when its timestamp is comparable.
pub open spec fn prepare_spec(
    active: Option<BuilderView>,
    e: EvidenceView,
    hint: Option<OffsetDateTime>,
    res: ResultView,
) -> (Option<BuilderView>, ResultView) {
    let (a1, r1) = match active {
        Some(b) => match b.pending_stop {
            Some(c) => (None, finish_spec(b, c, res)),
            None => (active, res),
        },
        None => (active, res),
    };
    match a1 {
        None => if e.timestamp.sequence_millis is Some {
            (Some(new_builder_spec(e, SessionStartBoundary::InferredFromActivity, hint)), r1)
        } else {
            (
                None,
                ResultView {
                    diagnostics: ReconstructionDiagnostics {
                        orphan_activity_without_timestamp: sat_inc(
                            r1.diagnostics.orphan_activity_without_timestamp,
                        ),
                        ..r1.diagnostics
                    },
                    ..r1
                },
            )
        },
        Some(b) => (Some(end_hint_spec(b, hint)), r1),
    }
}

pub fn prepare_for_activity(
    active: Option<SessionBuilder>,
    e: &LogEvidence,
    hint: Option<OffsetDateTime>,
    result: &mut ReconstructionResult,
) -> (r: Option<SessionBuilder>)
    requires
        active_ok(active_view(active)),
        evidence_ok(e@),
        hint matches Some(h) ==> h.wf(),
    ensures
        (active_view(r), final(result)@) == prepare_spec(active_view(active), e@, hint, old(result)@),
        active_ok(active_view(r)),
{
    let a1 = match active {
        Some(b) => match b.pending_stop {
            Some(c) => {
                finish_session(b, c, result);
                None
            },
            None => Some(b),
        },
        None => None,
    };
    match a1 {
        None => {
            if e.timestamp.sequence_millis.is_some() {
                Some(SessionBuilder::new(e, SessionStartBoundary::InferredFromActivity, hint))
            } else {
                result.diagnostics.orphan_activity_without_timestamp = sat_inc_exec(
                    result.diagnostics.orphan_activity_without_timestamp,
                );
                None
            }
        },
        Some(mut b) => {
            b.observe_source_end_hint(hint);
            Some(b)
        },
    }
}


pub open spec fn with_diagnostics(res: ResultView, d: ReconstructionDiagnostics) -> ResultView {
    ResultView { diagnostics: d, ..res }
}

pub open spec fn orphan_end(res: ResultView) -> ResultView {
    with_diagnostics(
        res,
        ReconstructionDiagnostics {
            orphan_end_evidence: sat_inc(res.diagnostics.orphan_end_evidence),
            ..res.diagnostics
        },
    )
}

/// Links `e` in `role` and observes its timestamp.
pub open spec fn link_observe(
    b: BuilderView,
    e: EvidenceView,
    role: SessionEvidenceRole,
    res: ResultView,
) -> (BuilderView, ResultView) {
    let b1 = link_spec(b, e, role);
    let (b2, d) = observe_spec(b1, e.timestamp, res.diagnostics);
    (b2, with_diagnostics(res, d))
}

/// Whether a timestamped startup continues the active session's bootstrap.
pub open spec fn is_bootstrap_spec(
    active: Option<BuilderView>,
    e: EvidenceView,
    policy: ReconstructionPolicy,
) -> bool {
    match active {
        Some(b) => {
            &&& b.pending_stop is None
            &&& b.evidence.len() > 0
            &&& b.evidence[0].provenance.source_id == e.provenance.source_id
            &&& match elapsed_seconds_spec(b.started_at, e.timestamp) {
                Some(x) => 0 <= x <= policy.startup_merge_window_seconds,
                None => false,
            }
        },
        None => false,
    }
}

/// The session end proposed when a new startup interrupts the active session.
pub open spec fn interrupted_end(b: BuilderView) -> EndCandidate {
    match b.pending_stop {
        Some(c) => c,
        None => EndCandidate {
            timestamp: b.last_timestamp,
            boundary: SessionEndBoundary::LastEvidenceBeforeNextStart,
            exit_kind: ReconstructedExitKind::Unknown,
        },
    }
}

/// Closes the active session at `e` with the given boundary.
pub open spec fn terminal_spec(
    active: Option<BuilderView>,
    e: EvidenceView,
    boundary: SessionEndBoundary,
    exit_kind: ReconstructedExitKind,
    res: ResultView,
) -> (Option<BuilderView>, ResultView) {
    match active {
        Some(b) => if e.timestamp.sequence_millis is Some {
            let b1 = link_spec(link_spec(b, e, SessionEvidenceRole::End), e, SessionEvidenceRole::Exit);
            let (b2, d) = observe_spec(b1, e.timestamp, res.diagnostics);
            (
                None,
                finish_spec(
                    b2,
                    EndCandidate { timestamp: e.timestamp, boundary, exit_kind },
                    with_diagnostics(res, d),
                ),
            )
        } else {
            (active, res)
        },
        None => (None, orphan_end(res)),
    }
}

pub open spec fn startup_spec(
    active: Option<BuilderView>,
    res: ResultView,
    e: EvidenceView,
    hint: Option<OffsetDateTime>,
    policy: ReconstructionPolicy,
) -> (Option<BuilderView>, ResultView) {
    if e.timestamp.sequence_millis is None {
        (
            match active {
                Some(b) => Some(link_spec(b, e, SessionEvidenceRole::Supporting)),
                None => None,
            },
            with_diagnostics(
                res,
                ReconstructionDiagnostics {
                    startup_without_timestamp: sat_inc(res.diagnostics.startup_without_timestamp),
                    ..res.diagnostics
                },
            ),
        )
    } else if is_bootstrap_spec(active, e, policy) {
        let (b2, r1) = link_observe(active->0, e, SessionEvidenceRole::Supporting, res);
        (Some(end_hint_spec(b2, hint)), r1)
    } else {
        (
            Some(new_builder_spec(e, SessionStartBoundary::ExplicitStartup, hint)),
            match active {
                Some(b) => finish_spec(b, interrupted_end(b), res),
                None => res,
            },
        )
    }
}

pub open spec fn version_spec(
    active: Option<BuilderView>,
    res: ResultView,
    e: EvidenceView,
    v: Seq<char>,
    hint: Option<OffsetDateTime>,
) -> (Option<BuilderView>, ResultView) {
    match active {
        Some(b) => {
            let (b2, r1) = link_observe(add_version_spec(b, v), e, SessionEvidenceRole::Version, res);
            (Some(end_hint_spec(b2, hint)), r1)
        },
        None => (None, res),
    }
}

/// Activity at a destination: prepares the session, then records the destination.
pub open spec fn destination_spec(
    active: Option<BuilderView>,
    res: ResultView,
    e: EvidenceView,
    version: Option<Seq<char>>,
    dest: DestinationView,
    hint: Option<OffsetDateTime>,
) -> (Option<BuilderView>, ResultView) {
    let (a1, r1) = prepare_spec(active, e, hint, res);
    match a1 {
        Some(b) => {
            let b1 = match version {
                Some(ver) => link_spec(add_version_spec(b, ver), e, SessionEvidenceRole::Version),
                None => b,
            };
            let (b2, r2) = link_observe(
                add_destination_spec(b1, dest),
                e,
                SessionEvidenceRole::Destination,
                r1,
            );
            (Some(b2), r2)
        },
        None => (None, r1),
    }
}

pub open spec fn disconnect_spec(
    active: Option<BuilderView>,
    res: ResultView,
    e: EvidenceView,
    hint: Option<OffsetDateTime>,
) -> (Option<BuilderView>, ResultView) {
    match active {
        Some(b) => {
            let (b2, r1) = link_observe(b, e, SessionEvidenceRole::Supporting, res);
            (Some(end_hint_spec(b2, hint)), r1)
        },
        None => (None, orphan_end(res)),
    }
}

pub open spec fn stopping_spec(
    active: Option<BuilderView>,
    res: ResultView,
    e: EvidenceView,
    hint: Option<OffsetDateTime>,
) -> (Option<BuilderView>, ResultView) {
    match active {
        Some(b) => {
            let b1 = link_spec(link_spec(b, e, SessionEvidenceRole::End), e, SessionEvidenceRole::Exit);
            let (b2, d) = observe_spec(b1, e.timestamp, res.diagnostics);
            let b3 = end_hint_spec(b2, hint);
            let b4 = if e.timestamp.sequence_millis is Some && b3.pending_stop is None {
                BuilderView {
                    pending_stop: Some(
                        EndCandidate {
                            timestamp: e.timestamp,
                            boundary: SessionEndBoundary::ClientStopping,
                            exit_kind: ReconstructedExitKind::Clean,
                        },
                    ),
                    ..b3
                }
            } else {
                b3
            };
            (Some(b4), with_diagnostics(res, d))
        },
        None => (None, orphan_end(res)),
    }
}

/// A crash recorded with a timestamp ends the active session: no session
/// stays active, exactly one session is added after the earlier ones, and it
/// ends at the crash's timestamp or earlier evidence, by a crash, with a
/// crash exit.
pub proof fn law_crash_ends_session_as_crash(
    b: BuilderView,
    res: ResultView,
    e: EvidenceView,
    marker: CrashMarker,
    hint: Option<OffsetDateTime>,
    policy: ReconstructionPolicy,
)
    requires
        e.event == EventView::Crash(marker),
        e.timestamp.sequence_millis is Some,
    ensures
        event_spec(Some(b), res, e, hint, policy).0 is None,
        event_spec(Some(b), res, e, hint, policy).1.sessions.len() == res.sessions.len() + 1,
        event_spec(Some(b), res, e, hint, policy).1.sessions.drop_last() == res.sessions,
        event_spec(Some(b), res, e, hint, policy).1.sessions.last().end_boundary == SessionEndBoundary::Crash,
        event_spec(Some(b), res, e, hint, policy).1.sessions.last().exit_kind == ReconstructedExitKind::Crash,
{
    let r = event_spec(Some(b), res, e, hint, policy).1;
    assert(r.sessions.drop_last() =~= res.sessions);
}

/// A clean shutdown recorded with a timestamp ends the active session the
/// same way: one session is added after the earlier ones, ending by a clean
/// shutdown with a clean exit.
pub proof fn law_clean_shutdown_ends_session_cleanly(
    b: BuilderView,
    res: ResultView,
    e: EvidenceView,
    hint: Option<OffsetDateTime>,
    policy: ReconstructionPolicy,
)
    requires
        e.event == EventView::CleanShutdown,
        e.timestamp.sequence_millis is Some,
    ensures
        event_spec(Some(b), res, e, hint, policy).0 is None,
        event_spec(Some(b), res, e, hint, policy).1.sessions.len() == res.sessions.len() + 1,
        event_spec(Some(b), res, e, hint, policy).1.sessions.drop_last() == res.sessions,
        event_spec(Some(b), res, e, hint, policy).1.sessions.last().end_boundary
            == SessionEndBoundary::CleanShutdown,
        event_spec(Some(b), res, e, hint, policy).1.sessions.last().exit_kind == ReconstructedExitKind::Clean,
{
    let r = event_spec(Some(b), res, e, hint, policy).1;
    assert(r.sessions.drop_last() =~= res.sessions);
}

/// A timestamped `Stopping` keeps the session open but marks where it will
/// end: a client stop with a clean exit at that moment, unless an end is
/// already pending. No session is added.
pub proof fn law_stopping_marks_a_clean_end(
    b: BuilderView,
    res: ResultView,
    e: EvidenceView,
    hint: Option<OffsetDateTime>,
    policy: ReconstructionPolicy,
)
    requires
        e.event == EventView::Stopping,
        e.timestamp.sequence_millis is Some,
        b.pending_stop is None,
    ensures
        event_spec(Some(b), res, e, hint, policy).0 matches Some(b2) && b2.pending_stop == Some(
            EndCandidate {
                timestamp: e.timestamp,
                boundary: SessionEndBoundary::ClientStopping,
                exit_kind: ReconstructedExitKind::Clean,
            },
        ),
        event_spec(Some(b), res, e, hint, policy).1.sessions == res.sessions,
{
}

/// A timestamped startup that does not continue the active session's
/// bootstrap ends that session at its last evidence, before the new start
/// (or at the end already pending), and opens a new session at the startup.
pub proof fn law_new_start_closes_the_active_session(
    b: BuilderView,
    res: ResultView,
    e: EvidenceView,
    hint: Option<OffsetDateTime>,
    policy: ReconstructionPolicy,
)
    requires
        e.event == EventView::GameStarted,
        e.timestamp.sequence_millis is Some,
        !is_bootstrap_spec(Some(b), e, policy),
    ensures
        event_spec(Some(b), res, e, hint, policy).0 matches Some(n) && n.started_at == e.timestamp
            && n.start_boundary == SessionStartBoundary::ExplicitStartup && n.pending_stop is None,
        event_spec(Some(b), res, e, hint, policy).1.sessions.len() == res.sessions.len() + 1,
        event_spec(Some(b), res, e, hint, policy).1.sessions.drop_last() == res.sessions,
        b.pending_stop is None ==> event_spec(Some(b), res, e, hint, policy).1.sessions.last().end_boundary
            == SessionEndBoundary::LastEvidenceBeforeNextStart,
        b.pending_stop matches Some(c) ==> event_spec(Some(b), res, e, hint, policy).1.sessions.last().end_boundary
            == c.boundary,
{
    let r = event_spec(Some(b), res, e, hint, policy).1;
    assert(r.sessions.drop_last() =~= res.sessions);
}

/// One evidence record applied to the active session and the result.
pub open spec fn event_spec(
    active: Option<BuilderView>,
    res: ResultView,
    e: EvidenceView,
    hint: Option<OffsetDateTime>,
    policy: ReconstructionPolicy,
) -> (Option<BuilderView>, ResultView) {
    match e.event {
        EventView::GameStarted => startup_spec(active, res, e, hint, policy),
        EventView::VersionObserved(v) => version_spec(active, res, e, v, hint),
        EventView::ServerJoined(a) => destination_spec(
            active,
            res,
            e,
            None,
            DestinationView::Server(a),
            hint,
        ),
        EventView::IntegratedServerStarted(v) => destination_spec(
            active,
            res,
            e,
            v,
            DestinationView::LocalWorld(None),
            hint,
        ),
        EventView::WorldLoaded(w) => destination_spec(
            active,
            res,
            e,
            None,
            DestinationView::LocalWorld(w),
            hint,
        ),
        EventView::Disconnected(_) => disconnect_spec(active, res, e, hint),
        EventView::Stopping => stopping_spec(active, res, e, hint),
        EventView::CleanShutdown => terminal_spec(
            active,
            e,
            SessionEndBoundary::CleanShutdown,
            ReconstructedExitKind::Clean,
            res,
        ),
        EventView::Crash(_) => terminal_spec(
            active,
            e,
            SessionEndBoundary::Crash,
            ReconstructedExitKind::Crash,
            res,
        ),
    }
}

fn is_bootstrap(
    active: &Option<SessionBuilder>,
    e: &LogEvidence,
    policy: &ReconstructionPolicy,
) -> (r: bool)
    requires
        active_ok(active_view(*active)),
        evidence_ok(e@),
    ensures
        r == is_bootstrap_spec(active_view(*active), e@, *policy),
{
    match active {
        Some(b) => {
            if b.pending_stop.is_some() || b.evidence.len() == 0 {
                return false;
            }
            assert(link_views(b.evidence@)[0] == b.evidence@[0]@);
            if !string_eq(&b.evidence[0].provenance.source_id, &e.provenance.source_id) {
                return false;
            }
            match elapsed_seconds(&b.started_at, &e.timestamp) {
                Some(x) => 0 <= x && x <= policy.startup_merge_window_seconds,
                None => false,
            }
        },
        None => false,
    }
}

fn terminal_step(
    active: Option<SessionBuilder>,
    e: &LogEvidence,
    boundary: SessionEndBoundary,
    exit_kind: ReconstructedExitKind,
    result: &mut ReconstructionResult,
) -> (r: Option<SessionBuilder>)
    requires
        active_ok(active_view(active)),
        evidence_ok(e@),
    ensures
        (active_view(r), final(result)@) == terminal_spec(
            active_view(active),
            e@,
            boundary,
            exit_kind,
            old(result)@,
        ),
        active_ok(active_view(r)),
{
    match active {
        Some(mut b) => {
            if e.timestamp.sequence_millis.is_some() {
                b.link(e, SessionEvidenceRole::End);
                b.link(e, SessionEvidenceRole::Exit);
                b.observe_timestamp(&e.timestamp, &mut result.diagnostics);
                finish_session(b, EndCandidate { timestamp: e.timestamp, boundary, exit_kind }, result);
                None
            } else {
                Some(b)
            }
        },
        None => {
            result.diagnostics.orphan_end_evidence = sat_inc_exec(result.diagnostics.orphan_end_evidence);
            None
        },
    }
}

fn startup_step(
    active: Option<SessionBuilder>,
    e: &LogEvidence,
    hint: Option<OffsetDateTime>,
    policy: &ReconstructionPolicy,
    result: &mut ReconstructionResult,
) -> (r: Option<SessionBuilder>)
    requires
        active_ok(active_view(active)),
        evidence_ok(e@),
        hint matches Some(h) ==> h.wf(),
    ensures
        (active_view(r), final(result)@) == startup_spec(
            active_view(active),
            old(result)@,
            e@,
            hint,
            *policy,
        ),
        active_ok(active_view(r)),
{
    if e.timestamp.sequence_millis.is_none() {
        result.diagnostics.startup_without_timestamp = sat_inc_exec(
            result.diagnostics.startup_without_timestamp,
        );
        return match active {
            Some(mut b) => {
                b.link(e, SessionEvidenceRole::Supporting);
                Some(b)
            },
            None => None,
        };
    }
    if is_bootstrap(&active, e, policy) {
        let mut b = active.unwrap();
        b.link(e, SessionEvidenceRole::Supporting);
        b.observe_timestamp(&e.timestamp, &mut result.diagnostics);
        b.observe_source_end_hint(hint);
        return Some(b);
    }
    match active {
        Some(b) => {
            let candidate = match b.pending_stop {
                Some(c) => c,
                None => EndCandidate {
                    timestamp: b.last_timestamp,
                    boundary: SessionEndBoundary::LastEvidenceBeforeNextStart,
                    exit_kind: ReconstructedExitKind::Unknown,
                },
            };
            finish_session(b, candidate, result);
        },
        None => {},
    }
    Some(SessionBuilder::new(e, SessionStartBoundary::ExplicitStartup, hint))
}

fn destination_step(
    active: Option<SessionBuilder>,
    e: &LogEvidence,
    version: &Option<String>,
    dest: SessionDestination,
    hint: Option<OffsetDateTime>,
    result: &mut ReconstructionResult,
) -> (r: Option<SessionBuilder>)
    requires
        active_ok(active_view(active)),
        evidence_ok(e@),
        hint matches Some(h) ==> h.wf(),
    ensures
        (active_view(r), final(result)@) == destination_spec(
            active_view(active),
            old(result)@,
            e@,
            crate::parser::minecraft_log::opt_view(*version),
            dest@,
            hint,
        ),
        active_ok(active_view(r)),
{
    let a1 = prepare_for_activity(active, e, hint, result);
    match a1 {
        Some(mut b) => {
            match version {
                Some(v) => {
                    b.add_version(v);
                    b.link(e, SessionEvidenceRole::Version);
                },
                None => {},
            }
            b.add_destination(dest);
            b.link(e, SessionEvidenceRole::Destination);
            b.observe_timestamp(&e.timestamp, &mut result.diagnostics);
            Some(b)
        },
        None => None,
    }
}

fn lifecycle_step(
    active: Option<SessionBuilder>,
    e: &LogEvidence,
    hint: Option<OffsetDateTime>,
    result: &mut ReconstructionResult,
) -> (r: Option<SessionBuilder>)
    requires
        active_ok(active_view(active)),
        evidence_ok(e@),
        hint matches Some(h) ==> h.wf(),
        e@.event is Stopping || e@.event is Disconnected,
    ensures
        (active_view(r), final(result)@) == (if e@.event is Stopping {
            stopping_spec(active_view(active), old(result)@, e@, hint)
        } else {
            disconnect_spec(active_view(active), old(result)@, e@, hint)
        }),
        active_ok(active_view(r)),
{
    let stopping = match &e.event {
        MinecraftLogEvent::Stopping => true,
        _ => false,
    };
    match active {
        Some(mut b) => {
            if stopping {
                b.link(e, SessionEvidenceRole::End);
                b.link(e, SessionEvidenceRole::Exit);
            } else {
                b.link(e, SessionEvidenceRole::Supporting);
            }
            b.observe_timestamp(&e.timestamp, &mut result.diagnostics);
            b.observe_source_end_hint(hint);
            if stopping && e.timestamp.sequence_millis.is_some() && b.pending_stop.is_none() {
                b.pending_stop = Some(
                    EndCandidate {
                        timestamp: e.timestamp,
                        boundary: SessionEndBoundary::ClientStopping,
                        exit_kind: ReconstructedExitKind::Clean,
                    },
                );
            }
            Some(b)
        },
        None => {
            result.diagnostics.orphan_end_evidence = sat_inc_exec(
                result.diagnostics.orphan_end_evidence,
            );
            None
        },
    }
}

/// Applies one evidence record.
pub fn event_step(
    active: Option<SessionBuilder>,
    e: &LogEvidence,
    hint: Option<OffsetDateTime>,
    policy: &ReconstructionPolicy,
    result: &mut ReconstructionResult,
) -> (r: Option<SessionBuilder>)
    requires
        active_ok(active_view(active)),
        evidence_ok(e@),
        hint matches Some(h) ==> h.wf(),
    ensures
        (active_view(r), final(result)@) == event_spec(
            active_view(active),
            old(result)@,
            e@,
            hint,
            *policy,
        ),
        active_ok(active_view(r)),
{
    match &e.event {
        MinecraftLogEvent::GameStarted => startup_step(active, e, hint, policy, result),
        MinecraftLogEvent::VersionObserved { version } => match active {
            Some(mut b) => {
                b.add_version(version);
                b.link(e, SessionEvidenceRole::Version);
                b.observe_timestamp(&e.timestamp, &mut result.diagnostics);
                b.observe_source_end_hint(hint);
                Some(b)
            },
            None => None,
        },
        MinecraftLogEvent::ServerJoined { address } => destination_step(
            active,
            e,
            &None,
            SessionDestination::Server { address: address.clone() },
            hint,
            result,
        ),
        MinecraftLogEvent::IntegratedServerStarted { version } => destination_step(
            active,
            e,
            version,
            SessionDestination::LocalWorld { world_name: None },
            hint,
            result,
        ),
        MinecraftLogEvent::WorldLoaded { world_name } => destination_step(
            active,
            e,
            &None,
            SessionDestination::LocalWorld {
                world_name: crate::parser::minecraft_log::copy_opt_string(world_name),
            },
            hint,
            result,
        ),
        MinecraftLogEvent::Disconnected { .. } => lifecycle_step(active, e, hint, result),
        MinecraftLogEvent::Stopping => lifecycle_step(active, e, hint, result),
        MinecraftLogEvent::CleanShutdown => terminal_step(
            active,
            e,
            SessionEndBoundary::CleanShutdown,
            ReconstructedExitKind::Clean,
            result,
        ),
        MinecraftLogEvent::Crash { .. } => terminal_step(
            active,
            e,
            SessionEndBoundary::Crash,
            ReconstructedExitKind::Crash,
            result,
        ),
    }
}


/// The instant by which evidence from different sources is matched.
#[derive(Clone, Copy, PartialEq, Eq, Debug, Structural)]
pub enum EvidenceMoment {
    Utc(i64),
    Local(crate::calendar::LocalDateTime),
    Sequence(i64),
}

/// Event and moment of keyed evidence, with its line.
pub struct EvidenceKey {
    pub event: MinecraftLogEvent,
    pub moment: EvidenceMoment,
    pub line_number: u64,
}

pub struct KeyView {
    pub event: EventView,
    pub moment: EvidenceMoment,
    pub line_number: u64,
}

impl View for EvidenceKey {
    type V = KeyView;

    open spec fn view(&self) -> KeyView {
        KeyView { event: self.event@, moment: self.moment, line_number: self.line_number }
    }
}

pub open spec fn key_views(v: Seq<EvidenceKey>) -> Seq<KeyView> {
    v.map_values(|k: EvidenceKey| k@)
}

pub open spec fn moment_of(e: EvidenceView) -> Option<EvidenceMoment> {
    match e.timestamp.occurred_at_utc_ms {
        Some(u) => Some(EvidenceMoment::Utc(u)),
        None => match e.timestamp.observed_local {
            Some(l) => Some(EvidenceMoment::Local(l)),
            None => match e.timestamp.sequence_millis {
                Some(q) => Some(EvidenceMoment::Sequence(q)),
                None => None,
            },
        },
    }
}

/// The cross-source keys of a log's evidence, in order (evidence without any
/// timestamp has none).
pub open spec fn keys_of(ev: Seq<EvidenceView>) -> Seq<KeyView>
    decreases ev.len(),
{
    if ev.len() == 0 {
        Seq::empty()
    } else {
        let rest = keys_of(ev.drop_last());
        match moment_of(ev.last()) {
            Some(m) => rest.push(
                KeyView { event: ev.last().event, moment: m, line_number: ev.last().provenance.line_number },
            ),
            None => rest,
        }
    }
}

pub open spec fn same_key(a: KeyView, b: KeyView) -> bool {
    a.event == b.event && a.moment == b.moment
}

/// The last `k` keys of `p` equal the first `k` keys of `c`.
pub open spec fn suffix_matches_prefix(p: Seq<KeyView>, c: Seq<KeyView>, k: int) -> bool {
    forall|i: int| 0 <= i < k ==> same_key(#[trigger] p[p.len() - k + i], c[i])
}

pub open spec fn overlap_below(p: Seq<KeyView>, c: Seq<KeyView>, k: nat) -> nat
    decreases k,
{
    if k == 0 {
        0
    } else if suffix_matches_prefix(p, c, k as int) {
        k
    } else {
        overlap_below(p, c, (k - 1) as nat)
    }
}

/// The longest suffix of `p` that is a prefix of `c`, compared by key.
pub open spec fn overlap_spec(p: Seq<KeyView>, c: Seq<KeyView>) -> nat {
    if p.len() <= c.len() {
        overlap_below(p, c, p.len())
    } else {
        overlap_below(p, c, c.len())
    }
}

pub open spec fn has_line_change(s: Seq<KeyView>, from: int, to: int) -> bool {
    exists|i: int| from <= i && i + 1 < to && #[trigger] s[i].line_number != s[i + 1].line_number
}

/// Both overlapping runs span more than one line.
pub open spec fn spans_lines(p: Seq<KeyView>, c: Seq<KeyView>, o: int) -> bool {
    has_line_change(p, p.len() - o, p.len() as int) && has_line_change(c, 0, o)
}

/// The number of leading keyed records of the current log already present at
/// the end of the previous log (at least two, on more than one line).
pub open spec fn duplicate_prefix(prev: Option<Seq<KeyView>>, cur: Seq<KeyView>) -> nat {
    match prev {
        Some(p) => {
            let o = overlap_spec(p, cur);
            if o >= 2 && spans_lines(p, cur, o as int) {
                o
            } else {
                0
            }
        },
        None => 0,
    }
}

pub fn event_eq(a: &MinecraftLogEvent, b: &MinecraftLogEvent) -> (r: bool)
    ensures
        r == (a@ == b@),
{
    match (a, b) {
        (MinecraftLogEvent::GameStarted, MinecraftLogEvent::GameStarted) => true,
        (MinecraftLogEvent::VersionObserved { version: x }, MinecraftLogEvent::VersionObserved { version: y }) => string_eq(x, y),
        (MinecraftLogEvent::ServerJoined { address: x }, MinecraftLogEvent::ServerJoined { address: y }) => string_eq(x, y),
        (
            MinecraftLogEvent::IntegratedServerStarted { version: x },
            MinecraftLogEvent::IntegratedServerStarted { version: y },
        ) => opt_string_eq(x, y),
        (MinecraftLogEvent::WorldLoaded { world_name: x }, MinecraftLogEvent::WorldLoaded { world_name: y }) => opt_string_eq(x, y),
        (
            MinecraftLogEvent::Disconnected { disconnect_kind: x },
            MinecraftLogEvent::Disconnected { disconnect_kind: y },
        ) => *x == *y,
        (MinecraftLogEvent::Stopping, MinecraftLogEvent::Stopping) => true,
        (MinecraftLogEvent::CleanShutdown, MinecraftLogEvent::CleanShutdown) => true,
        (MinecraftLogEvent::Crash { marker: x }, MinecraftLogEvent::Crash { marker: y }) => *x == *y,
        _ => false,
    }
}

fn key_eq(a: &EvidenceKey, b: &EvidenceKey) -> (r: bool)
    ensures
        r == same_key(a@, b@),
{
    event_eq(&a.event, &b.event) && a.moment == b.moment
}

/// The cross-source keys of a log's evidence.
pub fn compute_keys(ev: &Vec<LogEvidence>) -> (r: Vec<EvidenceKey>)
    ensures
        key_views(r@) == keys_of(evidence_views(ev@)),
{
    let mut r: Vec<EvidenceKey> = Vec::new();
    let mut i: usize = 0;
    assert(evidence_views(ev@).take(0) =~= Seq::<EvidenceView>::empty());
    assert(key_views(r@) =~= Seq::<KeyView>::empty());
    while i < ev.len()
        invariant
            i <= ev@.len(),
            key_views(r@) == keys_of(evidence_views(ev@).take(i as int)),
        decreases ev@.len() - i,
    {
        let ghost before = key_views(r@);
        assert(evidence_views(ev@).take(i + 1).drop_last() =~= evidence_views(ev@).take(i as int));
        assert(evidence_views(ev@).take(i + 1).last() == ev@[i as int]@);
        let ts = ev[i].timestamp;
        let moment = match ts.occurred_at_utc_ms {
            Some(u) => Some(EvidenceMoment::Utc(u)),
            None => match ts.observed_local {
                Some(l) => Some(EvidenceMoment::Local(l)),
                None => match ts.sequence_millis {
                    Some(q) => Some(EvidenceMoment::Sequence(q)),
                    None => None,
                },
            },
        };
        match moment {
            Some(m) => {
                r.push(
                    EvidenceKey {
                        event: ev[i].event.copy(),
                        moment: m,
                        line_number: ev[i].provenance.line_number,
                    },
                );
                assert(key_views(r@) =~= before.push(key_views(r@).last()));
            },
            None => {},
        }
        i = i + 1;
    }
    assert(evidence_views(ev@).take(ev@.len() as int) =~= evidence_views(ev@));
    r
}

fn suffix_prefix_match(p: &Vec<EvidenceKey>, c: &Vec<EvidenceKey>, k: usize) -> (r: bool)
    requires
        k <= p@.len(),
        k <= c@.len(),
    ensures
        r == suffix_matches_prefix(key_views(p@), key_views(c@), k as int),
{
    let start = p.len() - k;
    let mut i: usize = 0;
    while i < k
        invariant
            i <= k <= p@.len(),
            k <= c@.len(),
            start == p@.len() - k,
            start + k == p.len(),
            forall|j: int| 0 <= j < i ==> same_key(#[trigger] key_views(p@)[start + j], key_views(c@)[j]),
        decreases k - i,
    {
        if !key_eq(&p[start + i], &c[i]) {
            assert(!same_key(key_views(p@)[start + i as int], key_views(c@)[i as int]));
            assert(key_views(p@).len() - k + i == start + i);
            assert(!suffix_matches_prefix(key_views(p@), key_views(c@), k as int));
            return false;
        }
        i = i + 1;
    }
    assert forall|j: int| 0 <= j < k implies same_key(
        #[trigger] key_views(p@)[key_views(p@).len() - k + j],
        key_views(c@)[j],
    ) by {
        assert(key_views(p@).len() - k + j == start + j);
    }
    true
}

/// `suffix_prefix_overlap`.
pub fn suffix_prefix_overlap(p: &Vec<EvidenceKey>, c: &Vec<EvidenceKey>) -> (r: usize)
    ensures
        r == overlap_spec(key_views(p@), key_views(c@)),
        r <= p@.len(),
        r <= c@.len(),
{
    let mut k: usize = if p.len() <= c.len() { p.len() } else { c.len() };
    while k > 0
        invariant
            k <= p@.len(),
            k <= c@.len(),
            overlap_spec(key_views(p@), key_views(c@)) == overlap_below(
                key_views(p@),
                key_views(c@),
                k as nat,
            ),
        decreases k,
    {
        if suffix_prefix_match(p, c, k) {
            return k;
        }
        k = k - 1;
    }
    0
}

fn line_change(s: &Vec<EvidenceKey>, from: usize, to: usize) -> (r: bool)
    requires
        from <= to <= s@.len(),
    ensures
        r == has_line_change(key_views(s@), from as int, to as int),
{
    let mut i = from;
    while to - i > 1
        invariant
            from <= i <= to <= s@.len(),
            forall|j: int| from <= j < i && j + 1 < to ==> #[trigger] key_views(s@)[j].line_number
                == key_views(s@)[j + 1].line_number,
        decreases to - i,
    {
        if s[i].line_number != s[i + 1].line_number {
            assert(key_views(s@)[i as int].line_number != key_views(s@)[i + 1].line_number);
            return true;
        }
        i = i + 1;
    }
    false
}

/// `duplicate_prefix` for the previous log's keys.
pub fn duplicate_prefix_len(prev: &Option<Vec<EvidenceKey>>, cur: &Vec<EvidenceKey>) -> (r: usize)
    ensures
        r == duplicate_prefix(
            match prev {
                Some(p) => Some(key_views(p@)),
                None => None,
            },
            key_views(cur@),
        ),
{
    match prev {
        Some(p) => {
            let o = suffix_prefix_overlap(p, cur);
            if o >= 2 && line_change(p, p.len() - o, p.len()) && line_change(cur, 0, o) {
                o
            } else {
                0
            }
        },
        None => 0,
    }
}


/// The value of a parsed log as reconstruction reads it.
pub struct LogView {
    pub source_id: Seq<char>,
    pub source_order: u32,
    pub content_hash: Option<[u8; 32]>,
    pub end_hint: Option<OffsetDateTime>,
    pub evidence: Seq<EvidenceView>,
}

pub open spec fn log_view(l: ParsedLog) -> LogView {
    LogView {
        source_id: l.context.source_id@,
        source_order: l.context.source_order,
        content_hash: l.context.source_content_hash,
        end_hint: l.context.source_end_hint,
        evidence: evidence_views(l.evidence@),
    }
}

pub open spec fn log_views(v: Seq<ParsedLog>) -> Seq<LogView> {
    v.map_values(|l: ParsedLog| log_view(l))
}

/// Logs reconstruction accepts: comparable timestamps within range and valid end hints.
pub open spec fn logs_ok(logs: Seq<LogView>) -> bool {
    forall|i: int| 0 <= i < logs.len() ==> {
        &&& (#[trigger] logs[i]).end_hint matches Some(h) ==> h.wf()
        &&& forall|j: int| 0 <= j < logs[i].evidence.len() ==> evidence_ok(#[trigger] logs[i].evidence[j])
    }
}

/// A parsed log that reconstruction accepts: a well-formed end hint, and
/// every timestamp's sequence value within the accepted magnitude.
pub open spec fn log_accepted(p: ParsedLog) -> bool {
    &&& p.context.source_end_hint matches Some(h) ==> h.wf()
    &&& forall|j: int| 0 <= j < p.evidence@.len() ==> seq_ok((#[trigger] p.evidence@[j]).timestamp)
}

/// Logs that are each accepted are accepted together: the parser's output
/// can be handed to reconstruction as it is.
pub proof fn lemma_accepted_logs_ok(logs: Seq<ParsedLog>)
    requires
        forall|i: int| 0 <= i < logs.len() ==> log_accepted(#[trigger] logs[i]),
    ensures
        logs_ok(log_views(logs)),
{
    assert forall|i: int| 0 <= i < log_views(logs).len() implies {
        &&& (#[trigger] log_views(logs)[i]).end_hint matches Some(h) ==> h.wf()
        &&& forall|j: int| 0 <= j < log_views(logs)[i].evidence.len() ==> evidence_ok(
            #[trigger] log_views(logs)[i].evidence[j],
        )
    } by {
        assert(log_accepted(logs[i]));
        assert(log_views(logs)[i] == log_view(logs[i]));
        assert forall|j: int| 0 <= j < log_views(logs)[i].evidence.len() implies evidence_ok(
            #[trigger] log_views(logs)[i].evidence[j],
        ) by {
            assert(evidence_views(logs[i].evidence@)[j] == logs[i].evidence@[j]@);
            assert(seq_ok(logs[i].evidence@[j].timestamp));
        }
    }
}

/// Log `i` sorts no later than log `j`: by source order, then by source id.
pub open spec fn log_le(logs: Seq<LogView>, i: int, j: int) -> bool {
    logs[i].source_order < logs[j].source_order || (logs[i].source_order == logs[j].source_order
        && !lex_lt(logs[j].source_id, logs[i].source_id))
}

/// Stable insertion of index `x` after every index that sorts no later.
pub open spec fn insert_index(logs: Seq<LogView>, s: Seq<int>, x: int) -> Seq<int>
    decreases s.len(),
{
    if s.len() == 0 {
        seq![x]
    } else if log_le(logs, s.last(), x) {
        s.push(x)
    } else {
        insert_index(logs, s.drop_last(), x).push(s.last())
    }
}

/// The indices of the first `n` logs in stable sorted order.
pub open spec fn sorted_indices(logs: Seq<LogView>, n: nat) -> Seq<int>
    decreases n,
{
    if n == 0 {
        Seq::empty()
    } else {
        insert_index(logs, sorted_indices(logs, (n - 1) as nat), n - 1)
    }
}

pub proof fn lemma_insert_index_bounds(logs: Seq<LogView>, s: Seq<int>, x: int, bound: int)
    requires
        forall|k: int| 0 <= k < s.len() ==> 0 <= #[trigger] s[k] < bound,
        0 <= x < bound,
    ensures
        insert_index(logs, s, x).len() == s.len() + 1,
        forall|k: int| 0 <= k < s.len() + 1 ==> 0 <= #[trigger] insert_index(logs, s, x)[k] < bound,
    decreases s.len(),
{
    if s.len() > 0 && !log_le(logs, s.last(), x) {
        lemma_insert_index_bounds(logs, s.drop_last(), x, bound);
        let r = insert_index(logs, s.drop_last(), x);
        assert forall|k: int| 0 <= k < s.len() + 1 implies 0 <= #[trigger] insert_index(logs, s, x)[k]
            < bound by {
            if k < s.len() {
                assert(insert_index(logs, s, x)[k] == r[k]);
            }
        }
    }
}

pub proof fn lemma_sorted_indices_bounds(logs: Seq<LogView>, n: nat)
    ensures
        sorted_indices(logs, n).len() == n,
        forall|k: int| 0 <= k < n ==> 0 <= #[trigger] sorted_indices(logs, n)[k] < n,
    decreases n,
{
    if n > 0 {
        lemma_sorted_indices_bounds(logs, (n - 1) as nat);
        lemma_insert_index_bounds(logs, sorted_indices(logs, (n - 1) as nat), n - 1, n as int);
    }
}

fn log_sorts_before_or_equal(logs: &[ParsedLog], i: usize, j: usize) -> (r: bool)
    requires
        i < logs@.len(),
        j < logs@.len(),
    ensures
        r == log_le(log_views(logs@), i as int, j as int),
{
    let a = &logs[i].context;
    let b = &logs[j].context;
    a.source_order < b.source_order || (a.source_order == b.source_order && !string_lt(
        &b.source_id,
        &a.source_id,
    ))
}

/// Indices of `logs` in stable order of source order, then source id.
pub fn sort_log_indices(logs: &[ParsedLog]) -> (r: Vec<usize>)
    ensures
        r@.len() == logs@.len(),
        forall|k: int| 0 <= k < r@.len() ==> #[trigger] (r@[k] as int) == sorted_indices(
            log_views(logs@),
            logs@.len() as nat,
        )[k],
{
    let ghost lv = log_views(logs@);
    let mut r: Vec<usize> = Vec::new();
    let mut n: usize = 0;
    while n < logs.len()
        invariant
            n <= logs@.len(),
            lv == log_views(logs@),
            r@.len() == n,
            forall|k: int| 0 <= k < n ==> #[trigger] (r@[k] as int) == sorted_indices(lv, n as nat)[k],
        decreases logs@.len() - n,
    {
        proof {
            lemma_sorted_indices_bounds(lv, n as nat);
        }
        let ghost s = sorted_indices(lv, n as nat);
        // find the insertion position from the end
        let mut j: usize = n;
        assert(s.take(n as int) =~= s);
        assert(insert_index(lv, s, n as int) + s.skip(n as int) =~= insert_index(lv, s, n as int));
        while j > 0 && !log_sorts_before_or_equal(logs, r[j - 1], n)
            invariant
                j <= n < logs@.len(),
                r@.len() == n,
                lv == log_views(logs@),
                s == sorted_indices(lv, n as nat),
                s.len() == n,
                forall|k: int| 0 <= k < n ==> 0 <= #[trigger] s[k] < n,
                forall|k: int| 0 <= k < n ==> #[trigger] (r@[k] as int) == s[k],
                insert_index(lv, s, n as int) == insert_index(lv, s.take(j as int), n as int) + s.skip(
                    j as int,
                ),
            decreases j,
        {
            proof {
                let t = s.take(j as int);
                assert(t.last() == s[j - 1]);
                assert(t.drop_last() =~= s.take(j - 1));
                assert(seq![s[j - 1]] + s.skip(j as int) =~= s.skip(j - 1));
                assert(insert_index(lv, t, n as int) == insert_index(lv, s.take(j - 1), n as int).push(
                    s[j - 1],
                ));
                assert(insert_index(lv, s.take(j - 1), n as int).push(s[j - 1]) + s.skip(j as int)
                    =~= insert_index(lv, s.take(j - 1), n as int) + s.skip(j - 1));
            }
            j = j - 1;
        }
        proof {
            let t = s.take(j as int);
            if j == 0 {
                assert(t =~= Seq::<int>::empty());
            } else {
                assert(t.last() == s[j - 1]);
            }
            assert(insert_index(lv, t, n as int) =~= t.push(n as int));
        }
        r.insert(j, n);
        proof {
            assert(sorted_indices(lv, (n + 1) as nat) == insert_index(lv, s, n as int));
            assert forall|k: int| 0 <= k < n + 1 implies #[trigger] (r@[k] as int) == sorted_indices(
                lv,
                (n + 1) as nat,
            )[k] by {
                let full = s.take(j as int).push(n as int) + s.skip(j as int);
                assert(insert_index(lv, s, n as int) == full);
                if k < j {
                    assert(full[k] == s[k]);
                } else if k == j {
                    assert(full[k] == n);
                } else {
                    assert(full[k] == s[k - 1]);
                }
            }
        }
        n = n + 1;
    }
    r
}


/// The first `n` evidence records of a log applied in order; the third
/// component counts keyed records, the first `dup` of which are duplicates.
pub open spec fn evidence_run(
    active: Option<BuilderView>,
    res: ResultView,
    evs: Seq<EvidenceView>,
    n: nat,
    dup: nat,
    hint: Option<OffsetDateTime>,
    policy: ReconstructionPolicy,
) -> (Option<BuilderView>, ResultView, nat)
    decreases n,
{
    if n == 0 {
        (active, res, 0)
    } else {
        let (a, r, k) = evidence_run(active, res, evs, (n - 1) as nat, dup, hint, policy);
        let e = evs[n - 1];
        if moment_of(e) is Some {
            if k < dup {
                (
                    a,
                    with_diagnostics(
                        r,
                        ReconstructionDiagnostics {
                            duplicate_evidence: sat_inc(r.diagnostics.duplicate_evidence),
                            ..r.diagnostics
                        },
                    ),
                    k + 1,
                )
            } else {
                let (a2, r2) = event_spec(a, r, e, hint, policy);
                (a2, r2, k + 1)
            }
        } else {
            let (a2, r2) = event_spec(a, r, e, hint, policy);
            (a2, r2, k)
        }
    }
}

/// State carried from log to log.
pub struct RunState {
    pub active: Option<BuilderView>,
    pub res: ResultView,
    pub seen: Seq<[u8; 32]>,
    pub prev: Option<Seq<KeyView>>,
}

pub open spec fn sat_add64(a: u64, b: int) -> u64 {
    if a + b > u64::MAX {
        u64::MAX
    } else {
        (a + b) as u64
    }
}

/// One log applied: byte-identical copies are skipped whole, and a leading
/// run that repeats the end of the previous log is skipped as duplicate.
pub open spec fn log_step_spec(st: RunState, log: LogView, policy: ReconstructionPolicy) -> RunState {
    let copy = match log.content_hash {
        Some(h) => st.seen.contains(h),
        None => false,
    };
    if copy {
        RunState {
            res: with_diagnostics(
                st.res,
                ReconstructionDiagnostics {
                    duplicate_evidence: sat_add64(st.res.diagnostics.duplicate_evidence, log.evidence.len() as int),
                    ..st.res.diagnostics
                },
            ),
            ..st
        }
    } else {
        let seen = match log.content_hash {
            Some(h) => st.seen.push(h),
            None => st.seen,
        };
        let cur = keys_of(log.evidence);
        let dup = duplicate_prefix(st.prev, cur);
        let (a, r, _) = evidence_run(
            st.active,
            st.res,
            log.evidence,
            log.evidence.len(),
            dup,
            log.end_hint,
            policy,
        );
        RunState {
            active: a,
            res: r,
            seen,
            prev: if cur.len() > 0 {
                Some(cur)
            } else {
                st.prev
            },
        }
    }
}

pub open spec fn zero_diagnostics() -> ReconstructionDiagnostics {
    ReconstructionDiagnostics {
        duplicate_evidence: 0,
        orphan_end_evidence: 0,
        orphan_activity_without_timestamp: 0,
        startup_without_timestamp: 0,
        non_monotonic_evidence: 0,
        zero_duration_sessions: 0,
    }
}

pub open spec fn initial_run() -> RunState {
    RunState {
        active: None,
        res: ResultView { sessions: Seq::empty(), diagnostics: zero_diagnostics() },
        seen: Seq::empty(),
        prev: None,
    }
}

/// The first `n` logs in sorted order applied to the initial state.
pub open spec fn run_logs(logs: Seq<LogView>, policy: ReconstructionPolicy, n: nat) -> RunState
    decreases n,
{
    if n == 0 {
        initial_run()
    } else {
        let order = sorted_indices(logs, logs.len());
        log_step_spec(run_logs(logs, policy, (n - 1) as nat), logs[order[n - 1]], policy)
    }
}

/// The end given to a session still open after the last log.
pub open spec fn tail_end(b: BuilderView, policy: ReconstructionPolicy) -> EndCandidate {
    match choose_tail_spec(b, policy) {
        Some(c) => c,
        None => EndCandidate {
            timestamp: b.last_timestamp,
            boundary: SessionEndBoundary::TruncatedAtLastEvidence,
            exit_kind: ReconstructedExitKind::Unknown,
        },
    }
}

/// Reconstruction of one instance's sessions from its logs.
pub open spec fn reconstruct_spec(logs: Seq<LogView>, policy: ReconstructionPolicy) -> ResultView {
    let st = run_logs(logs, policy, logs.len());
    match st.active {
        Some(b) => finish_spec(b, tail_end(b, policy), st.res),
        None => st.res,
    }
}

fn hash_eq(a: &[u8; 32], b: &[u8; 32]) -> (r: bool)
    ensures
        r == (*a == *b),
{
    let mut i: usize = 0;
    while i < 32
        invariant
            i <= 32,
            forall|k: int| 0 <= k < i ==> a@[k] == b@[k],
        decreases 32 - i,
    {
        if a[i] != b[i] {
            return false;
        }
        i = i + 1;
    }
    proof {
        broadcast use vstd::array::axiom_array_ext_equal;
        assert(*a =~= *b);
    }
    true
}

fn seen_contains(seen: &Vec<[u8; 32]>, h: &[u8; 32]) -> (r: bool)
    ensures
        r == seen@.contains(*h),
{
    let mut i: usize = 0;
    while i < seen.len()
        invariant
            i <= seen@.len(),
            forall|k: int| 0 <= k < i ==> seen@[k] != *h,
        decreases seen@.len() - i,
    {
        if hash_eq(&seen[i], h) {
            return true;
        }
        i = i + 1;
    }
    false
}

fn has_moment(ts: &EvidenceTimestamp) -> (r: bool)
    ensures
        r == (moment_of(EvidenceView {
            timestamp: *ts,
            event: arbitrary(),
            confidence_score: arbitrary(),
            provenance: arbitrary(),
        }) is Some),
{
    ts.occurred_at_utc_ms.is_some() || ts.observed_local.is_some() || ts.sequence_millis.is_some()
}

/// Applies every evidence record of one log.
fn process_log_evidence(
    active: Option<SessionBuilder>,
    log: &ParsedLog,
    dup: usize,
    policy: &ReconstructionPolicy,
    result: &mut ReconstructionResult,
) -> (r: Option<SessionBuilder>)
    requires
        active_ok(active_view(active)),
        log_view(*log).end_hint matches Some(h) ==> h.wf(),
        forall|j: int| 0 <= j < log.evidence@.len() ==> evidence_ok(#[trigger] log.evidence@[j]@),
    ensures
        active_ok(active_view(r)),
        (active_view(r), final(result)@) == ({
            let t = evidence_run(
                active_view(active),
                old(result)@,
                log_view(*log).evidence,
                log.evidence@.len() as nat,
                dup as nat,
                log.context.source_end_hint,
                *policy,
            );
            (t.0, t.1)
        }),
{
    let ghost a0 = active_view(active);
    let ghost r0 = result@;
    let ghost evs = log_view(*log).evidence;
    let mut a = active;
    let mut keyed: usize = 0;
    let mut i: usize = 0;
    while i < log.evidence.len()
        invariant
            i <= log.evidence@.len(),
            keyed <= i,
            evs == evidence_views(log.evidence@),
            active_ok(active_view(a)),
            log_view(*log).end_hint matches Some(h) ==> h.wf(),
            forall|j: int| 0 <= j < log.evidence@.len() ==> evidence_ok(#[trigger] log.evidence@[j]@),
            evidence_run(a0, r0, evs, i as nat, dup as nat, log.context.source_end_hint, *policy) == (
                active_view(a),
                result@,
                keyed as nat,
            ),
        decreases log.evidence@.len() - i,
    {
        let e = &log.evidence[i];
        assert(evs[i as int] == e@);
        assert(evidence_ok(log.evidence@[i as int]@));
        if has_moment(&e.timestamp) {
            let duplicate = keyed < dup;
            keyed = keyed + 1;
            if duplicate {
                result.diagnostics.duplicate_evidence = sat_inc_exec(result.diagnostics.duplicate_evidence);
                i = i + 1;
                continue;
            }
        }
        a = event_step(a, e, log.context.source_end_hint, policy, result);
        i = i + 1;
    }
    a
}

/// Reconstructs sessions for one instance from oldest-to-newest rotated evidence.
#[verifier::rlimit(40)]
pub fn reconstruct_sessions_with_policy(logs: &[ParsedLog], policy: &ReconstructionPolicy) -> (r:
    ReconstructionResult)
    requires
        logs_ok(log_views(logs@)),
    ensures
        r@ == reconstruct_spec(log_views(logs@), *policy),
{
    let ghost lv = log_views(logs@);
    let order = sort_log_indices(logs);
    proof {
        lemma_sorted_indices_bounds(lv, logs@.len() as nat);
    }
    let mut result = ReconstructionResult {
        sessions: Vec::new(),
        diagnostics: ReconstructionDiagnostics {
            duplicate_evidence: 0,
            orphan_end_evidence: 0,
            orphan_activity_without_timestamp: 0,
            startup_without_timestamp: 0,
            non_monotonic_evidence: 0,
            zero_duration_sessions: 0,
        },
    };
    assert(session_views(result.sessions@) =~= Seq::<SessionView>::empty());
    let mut active: Option<SessionBuilder> = None;
    let mut seen: Vec<[u8; 32]> = Vec::new();
    let mut prev: Option<Vec<EvidenceKey>> = None;
    let mut n: usize = 0;
    while n < order.len()
        invariant
            n <= order@.len(),
            order@.len() == logs@.len(),
            lv == log_views(logs@),
            logs_ok(lv),
            forall|k: int| 0 <= k < order@.len() ==> #[trigger] (order@[k] as int) == sorted_indices(
                lv,
                lv.len(),
            )[k],
            forall|k: int| 0 <= k < lv.len() ==> 0 <= #[trigger] sorted_indices(lv, lv.len())[k] < lv.len(),
            active_ok(active_view(active)),
            run_logs(lv, *policy, n as nat) == (RunState {
                active: active_view(active),
                res: result@,
                seen: seen@,
                prev: match prev {
                    Some(p) => Some(key_views(p@)),
                    None => None,
                },
            }),
        decreases order@.len() - n,
    {
        let idx = order[n];
        assert(0 <= idx < lv.len());
        let log = &logs[idx];
        assert(lv[idx as int] == log_view(*log));
        assert(logs_ok(lv));
        let ghost st = run_logs(lv, *policy, n as nat);
        let copy = match &log.context.source_content_hash {
            Some(h) => seen_contains(&seen, h),
            None => false,
        };
        if copy {
            let len = log.evidence.len() as u64;
            result.diagnostics.duplicate_evidence = if len > u64::MAX - result.diagnostics.duplicate_evidence {
                u64::MAX
            } else {
                result.diagnostics.duplicate_evidence + len
            };
            n = n + 1;
            continue;
        }
        match log.context.source_content_hash {
            Some(h) => seen.push(h),
            None => {},
        }
        let cur = compute_keys(&log.evidence);
        let dup = duplicate_prefix_len(&prev, &cur);
        assert forall|j: int| 0 <= j < log.evidence@.len() implies evidence_ok(
            #[trigger] log.evidence@[j]@,
        ) by {
            assert(lv[idx as int].evidence[j] == log.evidence@[j]@);
        }
        active = process_log_evidence(active, log, dup, policy, &mut result);
        if cur.len() > 0 {
            prev = Some(cur);
        }
        n = n + 1;
    }
    match active {
        Some(b) => {
            let candidate = match choose_tail_boundary(&b, policy) {
                Some(c) => c,
                None => EndCandidate {
                    timestamp: b.last_timestamp,
                    boundary: SessionEndBoundary::TruncatedAtLastEvidence,
                    exit_kind: ReconstructedExitKind::Unknown,
                },
            };
            finish_session(b, candidate, &mut result);
        },
        None => {},
    }
    result
}

/// Reconstructs sessions with the standard policy.
pub fn reconstruct_sessions(logs: &[ParsedLog]) -> (r: ReconstructionResult)
    requires
        logs_ok(log_views(logs@)),
    ensures
        r@ == reconstruct_spec(log_views(logs@), ReconstructionPolicy::standard_spec()),
{
    reconstruct_sessions_with_policy(logs, &ReconstructionPolicy::standard())
}

impl ReconstructionPolicy {
    pub open spec fn standard_spec() -> ReconstructionPolicy {
        ReconstructionPolicy { startup_merge_window_seconds: 120, source_end_tail_limit_seconds: 900 }
    }
}

} // verus!
