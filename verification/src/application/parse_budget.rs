//! Resource budgets of one scan: per instance and for the scan as a whole.
//! A budget check either accepts and counts the new work, or names the
//! resource that would run over and leaves the budget as it was.

use vstd::prelude::*;

use crate::parser::log_parser::{evidence_views, EvidenceView};
use crate::parser::minecraft_log::{EventView, LogParseLimits, ParsedLog};
use crate::parser::session_reconstruction::{
    session_views, DestinationView, ReconstructedSession, SessionDestination, SessionView,
};
use vstd::utf8::encode_utf8;

verus! {

pub const MAX_INSTANCE_LOG_FILES: usize = 4_096;
pub const MAX_INSTANCE_DECOMPRESSED_BYTES: u64 = 536_870_912;
pub const MAX_INSTANCE_EVIDENCE_EVENTS: u64 = 500_000;
pub const MAX_INSTANCE_CANONICAL_SESSIONS: usize = 100_000;
pub const MAX_SESSION_DESTINATIONS: usize = 64;
pub const MAX_SESSION_VERSIONS: usize = 64;
pub const MAX_SESSION_EVIDENCE_LINKS: usize = 100_000;
pub const MAX_DESTINATION_UTF8_BYTES: usize = 512;
pub const MAX_VERSION_UTF8_BYTES: usize = 256;
pub const MAX_SCAN_LOG_FILES: usize = 16_384;
pub const MAX_SCAN_DECOMPRESSED_BYTES: u64 = 2_147_483_648;
pub const MAX_SCAN_EVIDENCE_EVENTS: u64 = 1_000_000;
pub const MAX_SCAN_RECONSTRUCTED_SESSIONS: usize = 200_000;
pub const MAX_SCAN_CONTEXTS: usize = 500_000;

/// What one instance may hold after parsing and reconstruction.
#[derive(Clone, Copy, PartialEq, Eq, Debug, Structural)]
pub struct InstanceParseLimits {
    pub max_log_files: usize,
    pub max_decompressed_bytes: u64,
    pub max_evidence_events: u64,
    pub max_reconstructed_sessions: usize,
    pub max_destinations_per_session: usize,
    pub max_versions_per_session: usize,
    pub max_evidence_links_per_session: usize,
    pub max_destination_utf8_bytes: usize,
    pub max_version_utf8_bytes: usize,
}

impl Default for InstanceParseLimits {
    fn default() -> (r: InstanceParseLimits)
        ensures
            r == (InstanceParseLimits {
                max_log_files: MAX_INSTANCE_LOG_FILES,
                max_decompressed_bytes: MAX_INSTANCE_DECOMPRESSED_BYTES,
                max_evidence_events: MAX_INSTANCE_EVIDENCE_EVENTS,
                max_reconstructed_sessions: MAX_INSTANCE_CANONICAL_SESSIONS,
                max_destinations_per_session: MAX_SESSION_DESTINATIONS,
                max_versions_per_session: MAX_SESSION_VERSIONS,
                max_evidence_links_per_session: MAX_SESSION_EVIDENCE_LINKS,
                max_destination_utf8_bytes: MAX_DESTINATION_UTF8_BYTES,
                max_version_utf8_bytes: MAX_VERSION_UTF8_BYTES,
            }),
    {
        InstanceParseLimits {
            max_log_files: MAX_INSTANCE_LOG_FILES,
            max_decompressed_bytes: MAX_INSTANCE_DECOMPRESSED_BYTES,
            max_evidence_events: MAX_INSTANCE_EVIDENCE_EVENTS,
            max_reconstructed_sessions: MAX_INSTANCE_CANONICAL_SESSIONS,
            max_destinations_per_session: MAX_SESSION_DESTINATIONS,
            max_versions_per_session: MAX_SESSION_VERSIONS,
            max_evidence_links_per_session: MAX_SESSION_EVIDENCE_LINKS,
            max_destination_utf8_bytes: MAX_DESTINATION_UTF8_BYTES,
            max_version_utf8_bytes: MAX_VERSION_UTF8_BYTES,
        }
    }
}

/// What one instance has retained so far.
#[derive(Clone, Copy, PartialEq, Eq, Debug, Structural)]
pub struct InstanceParseBudget {
    pub retained_logs: usize,
    pub decompressed_bytes: u64,
    pub evidence_events: u64,
}

impl Default for InstanceParseBudget {
    fn default() -> (r: InstanceParseBudget)
        ensures
            r == (InstanceParseBudget { retained_logs: 0, decompressed_bytes: 0, evidence_events: 0 }),
    {
        InstanceParseBudget { retained_logs: 0, decompressed_bytes: 0, evidence_events: 0 }
    }
}

/// A check's outcome: accepted, or the name of the resource that ran over.
pub open spec fn outcome(r: Result<(), &'static str>) -> Result<(), Seq<char>> {
    match r {
        Ok(()) => Ok(()),
        Err(e) => Err(e@),
    }
}

/// The UTF-8 length of a text, as `str::len` gives it.
pub open spec fn utf8_len_of(s: Seq<char>) -> usize {
    encode_utf8(s).len() as usize
}

/// The outcome of retaining one more log of `decoded` bytes and `events` evidence records.
pub open spec fn instance_retain_spec(
    b: InstanceParseBudget,
    decoded: u64,
    events: u64,
    l: InstanceParseLimits,
) -> Result<(), Seq<char>> {
    if b.retained_logs + 1 > usize::MAX {
        Err("retained log count"@)
    } else if b.decompressed_bytes + decoded > u64::MAX {
        Err("decompressed byte count"@)
    } else if b.evidence_events + events > u64::MAX {
        Err("evidence event count"@)
    } else if b.retained_logs + 1 > l.max_log_files {
        Err("retained log count"@)
    } else if b.decompressed_bytes + decoded > l.max_decompressed_bytes {
        Err("decompressed byte count"@)
    } else if b.evidence_events + events > l.max_evidence_events {
        Err("evidence event count"@)
    } else {
        Ok(())
    }
}

impl InstanceParseBudget {
    pub fn validate_log_count(count: usize, limits: &InstanceParseLimits) -> (r: Result<(), &'static str>)
        ensures
            outcome(r) == (if count > limits.max_log_files {
                Err::<(), Seq<char>>("log file count"@)
            } else {
                Ok(())
            }),
    {
        if count > limits.max_log_files {
            Err("log file count")
        } else {
            Ok(())
        }
    }

    /// Counts one more parsed log, unless a limit would be exceeded.
    pub fn retain(&mut self, decoded_bytes: u64, evidence_events: u64, limits: &InstanceParseLimits) -> (r:
        Result<(), &'static str>)
        ensures
            outcome(r) == instance_retain_spec(*old(self), decoded_bytes, evidence_events, *limits),
            r is Ok ==> *final(self) == (InstanceParseBudget {
                retained_logs: (old(self).retained_logs + 1) as usize,
                decompressed_bytes: (old(self).decompressed_bytes + decoded_bytes) as u64,
                evidence_events: (old(self).evidence_events + evidence_events) as u64,
            }),
            r is Err ==> *final(self) == *old(self),
    {
        let retained_logs = match self.retained_logs.checked_add(1) {
            Some(v) => v,
            None => return Err("retained log count"),
        };
        let decompressed_bytes = match self.decompressed_bytes.checked_add(decoded_bytes) {
            Some(v) => v,
            None => return Err("decompressed byte count"),
        };
        let evidence = match self.evidence_events.checked_add(evidence_events) {
            Some(v) => v,
            None => return Err("evidence event count"),
        };
        if retained_logs > limits.max_log_files {
            return Err("retained log count");
        }
        if decompressed_bytes > limits.max_decompressed_bytes {
            return Err("decompressed byte count");
        }
        if evidence > limits.max_evidence_events {
            return Err("evidence event count");
        }
        self.retained_logs = retained_logs;
        self.decompressed_bytes = decompressed_bytes;
        self.evidence_events = evidence;
        Ok(())
    }
}

pub open spec fn destination_too_long(d: DestinationView, max: usize) -> bool {
    match d {
        DestinationView::Server(a) => utf8_len_of(a) > max,
        DestinationView::LocalWorld(Some(n)) => utf8_len_of(n) > max,
        DestinationView::LocalWorld(None) => false,
    }
}

/// The first limit that one reconstructed session runs over, if any.
pub open spec fn session_violation(s: SessionView, l: InstanceParseLimits) -> Option<Seq<char>> {
    if s.destinations.len() > l.max_destinations_per_session {
        Some("destinations per session"@)
    } else if s.versions.len() > l.max_versions_per_session {
        Some("versions per session"@)
    } else if s.evidence.len() > l.max_evidence_links_per_session {
        Some("evidence links per session"@)
    } else if exists|i: int|
        0 <= i < s.destinations.len() && destination_too_long(
            #[trigger] s.destinations[i],
            l.max_destination_utf8_bytes,
        ) {
        Some("destination string bytes"@)
    } else if exists|i: int|
        0 <= i < s.versions.len() && utf8_len_of(#[trigger] s.versions[i]) > l.max_version_utf8_bytes {
        Some("version string bytes"@)
    } else {
        None
    }
}

/// The first violation among the sessions, in order.
pub open spec fn first_violation(ss: Seq<SessionView>, l: InstanceParseLimits) -> Option<Seq<char>>
    decreases ss.len(),
{
    if ss.len() == 0 {
        None
    } else {
        match first_violation(ss.drop_last(), l) {
            Some(e) => Some(e),
            None => session_violation(ss.last(), l),
        }
    }
}

pub open spec fn reconstruction_check(ss: Seq<SessionView>, l: InstanceParseLimits) -> Result<(), Seq<char>> {
    if ss.len() > l.max_reconstructed_sessions {
        Err("reconstructed session count"@)
    } else {
        match first_violation(ss, l) {
            Some(e) => Err(e),
            None => Ok(()),
        }
    }
}

fn destination_exceeds(d: &SessionDestination, max: usize) -> (r: bool)
    ensures
        r == destination_too_long(d@, max),
{
    match d {
        SessionDestination::Server { address } => address.as_str().len() > max,
        SessionDestination::LocalWorld { world_name } => match world_name {
            Some(n) => n.as_str().len() > max,
            None => false,
        },
    }
}

#[verifier::loop_isolation(false)]
fn check_session(s: &ReconstructedSession, limits: &InstanceParseLimits) -> (r: Option<&'static str>)
    ensures
        match r {
            Some(e) => session_violation(s@, *limits) == Some(e@),
            None => session_violation(s@, *limits) is None,
        },
{
    if s.destinations.len() > limits.max_destinations_per_session {
        return Some("destinations per session");
    }
    if s.versions.len() > limits.max_versions_per_session {
        return Some("versions per session");
    }
    if s.evidence.len() > limits.max_evidence_links_per_session {
        return Some("evidence links per session");
    }
    let ghost sv = s@;
    let mut i: usize = 0;
    while i < s.destinations.len()
        invariant
            i <= s.destinations@.len(),
            sv == s@,
            sv.destinations.len() == s.destinations@.len(),
            forall|k: int| 0 <= k < i ==> !destination_too_long(
                #[trigger] sv.destinations[k],
                limits.max_destination_utf8_bytes,
            ),
        decreases s.destinations@.len() - i,
    {
        assert(sv.destinations[i as int] == s.destinations@[i as int]@);
        if destination_exceeds(&s.destinations[i], limits.max_destination_utf8_bytes) {
            return Some("destination string bytes");
        }
        i = i + 1;
    }
    let mut j: usize = 0;
    while j < s.versions.len()
        invariant
            j <= s.versions@.len(),
            sv == s@,
            sv.versions.len() == s.versions@.len(),
            forall|k: int| 0 <= k < j ==> !(utf8_len_of(#[trigger] sv.versions[k]) > limits.max_version_utf8_bytes),
        decreases s.versions@.len() - j,
    {
        assert(sv.versions[j as int] == s.versions@[j as int]@);
        if s.versions[j].as_str().len() > limits.max_version_utf8_bytes {
            return Some("version string bytes");
        }
        j = j + 1;
    }
    None
}

impl InstanceParseBudget {
    /// Checks the sessions of one instance against the per-instance limits.
    #[verifier::loop_isolation(false)]
    pub fn validate_reconstruction(sessions: &[ReconstructedSession], limits: &InstanceParseLimits) -> (r:
        Result<(), &'static str>)
        ensures
            outcome(r) == reconstruction_check(session_views(sessions@), *limits),
    {
        if sessions.len() > limits.max_reconstructed_sessions {
            return Err("reconstructed session count");
        }
        let ghost all = session_views(sessions@);
        let mut i: usize = 0;
        assert(all.take(0) =~= Seq::<SessionView>::empty());
        while i < sessions.len()
            invariant
                i <= sessions@.len(),
                all == session_views(sessions@),
                first_violation(all.take(i as int), *limits) is None,
            decreases sessions@.len() - i,
        {
            assert(all.take(i + 1).drop_last() =~= all.take(i as int));
            assert(all.take(i + 1).last() == sessions@[i as int]@);
            match check_session(&sessions[i], limits) {
                Some(e) => {
                    proof {
                        assert(first_violation(all.take(i + 1), *limits) == Some(e@));
                        lemma_first_violation_extends(all, *limits, i + 1);
                    }
                    return Err(e);
                },
                None => {},
            }
            i = i + 1;
        }
        assert(all.take(i as int) =~= all);
        Ok(())
    }
}

proof fn lemma_first_violation_extends(ss: Seq<SessionView>, l: InstanceParseLimits, k: int)
    requires
        0 < k <= ss.len(),
        first_violation(ss.take(k), l) is Some,
    ensures
        first_violation(ss, l) == first_violation(ss.take(k), l),
    decreases ss.len() - k,
{
    if k < ss.len() {
        assert(ss.take(k + 1).drop_last() =~= ss.take(k));
        lemma_first_violation_extends(ss, l, k + 1);
    } else {
        assert(ss.take(k) =~= ss);
    }
}

/// The first evidence record whose text runs over its limit, if any.
pub open spec fn evidence_violation(e: EvidenceView, l: InstanceParseLimits) -> Option<Seq<char>> {
    match e.event {
        EventView::ServerJoined(a) => if utf8_len_of(a) > l.max_destination_utf8_bytes {
            Some("destination string bytes"@)
        } else {
            None
        },
        EventView::WorldLoaded(Some(n)) => if utf8_len_of(n) > l.max_destination_utf8_bytes {
            Some("destination string bytes"@)
        } else {
            None
        },
        EventView::VersionObserved(v) => if utf8_len_of(v) > l.max_version_utf8_bytes {
            Some("version string bytes"@)
        } else {
            None
        },
        EventView::IntegratedServerStarted(Some(v)) => if utf8_len_of(v) > l.max_version_utf8_bytes {
            Some("version string bytes"@)
        } else {
            None
        },
        _ => None,
    }
}

pub open spec fn first_evidence_violation(ev: Seq<EvidenceView>, l: InstanceParseLimits) -> Option<
    Seq<char>,
>
    decreases ev.len(),
{
    if ev.len() == 0 {
        None
    } else {
        match first_evidence_violation(ev.drop_last(), l) {
            Some(e) => Some(e),
            None => evidence_violation(ev.last(), l),
        }
    }
}

proof fn lemma_first_evidence_violation_extends(ev: Seq<EvidenceView>, l: InstanceParseLimits, k: int)
    requires
        0 < k <= ev.len(),
        first_evidence_violation(ev.take(k), l) is Some,
    ensures
        first_evidence_violation(ev, l) == first_evidence_violation(ev.take(k), l),
    decreases ev.len() - k,
{
    if k < ev.len() {
        assert(ev.take(k + 1).drop_last() =~= ev.take(k));
        lemma_first_evidence_violation_extends(ev, l, k + 1);
    } else {
        assert(ev.take(k) =~= ev);
    }
}

impl InstanceParseBudget {
    /// Checks the text of a parsed log's evidence against the per-instance limits.
    pub fn validate_parsed_payload(log: &ParsedLog, limits: &InstanceParseLimits) -> (r: Result<
        (),
        &'static str,
    >)
        ensures
            outcome(r) == (match first_evidence_violation(evidence_views(log.evidence@), *limits) {
                Some(e) => Err(e),
                None => Ok::<(), Seq<char>>(()),
            }),
    {
        let ghost all = evidence_views(log.evidence@);
        let mut i: usize = 0;
        assert(all.take(0) =~= Seq::<EvidenceView>::empty());
        while i < log.evidence.len()
            invariant
                i <= log.evidence@.len(),
                all == evidence_views(log.evidence@),
                all.len() == log.evidence@.len(),
                first_evidence_violation(all.take(i as int), *limits) is None,
            decreases log.evidence@.len() - i,
        {
            assert(all.take(i + 1).drop_last() =~= all.take(i as int));
            assert(all.take(i + 1).last() == all[i as int]);
            let found: Option<&'static str> = match &log.evidence[i].event {
                crate::parser::minecraft_log::MinecraftLogEvent::ServerJoined { address } => {
                    if address.as_str().len() > limits.max_destination_utf8_bytes {
                        Some("destination string bytes")
                    } else {
                        None
                    }
                },
                crate::parser::minecraft_log::MinecraftLogEvent::WorldLoaded {
                    world_name: Some(world_name),
                } => {
                    if world_name.as_str().len() > limits.max_destination_utf8_bytes {
                        Some("destination string bytes")
                    } else {
                        None
                    }
                },
                crate::parser::minecraft_log::MinecraftLogEvent::VersionObserved { version } => {
                    if version.as_str().len() > limits.max_version_utf8_bytes {
                        Some("version string bytes")
                    } else {
                        None
                    }
                },
                crate::parser::minecraft_log::MinecraftLogEvent::IntegratedServerStarted {
                    version: Some(version),
                } => {
                    if version.as_str().len() > limits.max_version_utf8_bytes {
                        Some("version string bytes")
                    } else {
                        None
                    }
                },
                _ => None,
            };
            match found {
                Some(e) => {
                    proof {
                        assert(first_evidence_violation(all.take(i + 1), *limits) == Some(e@));
                        lemma_first_evidence_violation_extends(all, *limits, i + 1);
                    }
                    return Err(e);
                },
                None => {},
            }
            i = i + 1;
        }
        assert(all.take(i as int) =~= all);
        Ok(())
    }
}

/// What the whole scan may hold.
#[derive(Clone, Copy, PartialEq, Eq, Debug, Structural)]
pub struct ScanParseLimits {
    pub max_log_files: usize,
    pub max_decompressed_bytes: u64,
    pub max_evidence_events: u64,
    pub max_reconstructed_sessions: usize,
    pub max_contexts: usize,
}

impl Default for ScanParseLimits {
    fn default() -> (r: ScanParseLimits)
        ensures
            r == (ScanParseLimits {
                max_log_files: MAX_SCAN_LOG_FILES,
                max_decompressed_bytes: MAX_SCAN_DECOMPRESSED_BYTES,
                max_evidence_events: MAX_SCAN_EVIDENCE_EVENTS,
                max_reconstructed_sessions: MAX_SCAN_RECONSTRUCTED_SESSIONS,
                max_contexts: MAX_SCAN_CONTEXTS,
            }),
    {
        ScanParseLimits {
            max_log_files: MAX_SCAN_LOG_FILES,
            max_decompressed_bytes: MAX_SCAN_DECOMPRESSED_BYTES,
            max_evidence_events: MAX_SCAN_EVIDENCE_EVENTS,
            max_reconstructed_sessions: MAX_SCAN_RECONSTRUCTED_SESSIONS,
            max_contexts: MAX_SCAN_CONTEXTS,
        }
    }
}

/// What the whole scan has retained so far.
#[derive(Clone, Copy, PartialEq, Eq, Debug, Structural)]
pub struct ScanParseBudget {
    pub log_files: usize,
    pub decompressed_bytes: u64,
    pub evidence_events: u64,
    pub reconstructed_sessions: usize,
    pub contexts: usize,
}

impl Default for ScanParseBudget {
    fn default() -> (r: ScanParseBudget)
        ensures
            r == (ScanParseBudget {
                log_files: 0,
                decompressed_bytes: 0,
                evidence_events: 0,
                reconstructed_sessions: 0,
                contexts: 0,
            }),
    {
        ScanParseBudget {
            log_files: 0,
            decompressed_bytes: 0,
            evidence_events: 0,
            reconstructed_sessions: 0,
            contexts: 0,
        }
    }
}

pub open spec fn scan_retain_spec(b: ScanParseBudget, decoded: u64, events: u64, l: ScanParseLimits) -> Result<
    (),
    Seq<char>,
> {
    if b.log_files + 1 > usize::MAX {
        Err("scan log file count"@)
    } else if b.decompressed_bytes + decoded > u64::MAX {
        Err("scan decompressed byte count"@)
    } else if b.evidence_events + events > u64::MAX {
        Err("scan evidence event count"@)
    } else if b.log_files + 1 > l.max_log_files {
        Err("scan log file count"@)
    } else if b.decompressed_bytes + decoded > l.max_decompressed_bytes {
        Err("scan decompressed byte count"@)
    } else if b.evidence_events + events > l.max_evidence_events {
        Err("scan evidence event count"@)
    } else {
        Ok(())
    }
}

pub open spec fn scan_reconstruction_spec(
    b: ScanParseBudget,
    sessions: usize,
    contexts: usize,
    l: ScanParseLimits,
) -> Result<(), Seq<char>> {
    if b.reconstructed_sessions + sessions > usize::MAX {
        Err("scan reconstructed session count"@)
    } else if b.contexts + contexts > usize::MAX {
        Err("scan context count"@)
    } else if b.reconstructed_sessions + sessions > l.max_reconstructed_sessions {
        Err("scan reconstructed session count"@)
    } else if b.contexts + contexts > l.max_contexts {
        Err("scan context count"@)
    } else {
        Ok(())
    }
}

impl ScanParseBudget {
    /// Counts one more parsed log against the scan, unless a limit would be exceeded.
    pub fn retain_log(&mut self, decompressed_bytes: u64, evidence_events: u64, limits: &ScanParseLimits) -> (r:
        Result<(), &'static str>)
        ensures
            outcome(r) == scan_retain_spec(*old(self), decompressed_bytes, evidence_events, *limits),
            r is Ok ==> *final(self) == (ScanParseBudget {
                log_files: (old(self).log_files + 1) as usize,
                decompressed_bytes: (old(self).decompressed_bytes + decompressed_bytes) as u64,
                evidence_events: (old(self).evidence_events + evidence_events) as u64,
                ..*old(self)
            }),
            r is Err ==> *final(self) == *old(self),
    {
        let log_files = match self.log_files.checked_add(1) {
            Some(v) => v,
            None => return Err("scan log file count"),
        };
        let bytes = match self.decompressed_bytes.checked_add(decompressed_bytes) {
            Some(v) => v,
            None => return Err("scan decompressed byte count"),
        };
        let events = match self.evidence_events.checked_add(evidence_events) {
            Some(v) => v,
            None => return Err("scan evidence event count"),
        };
        if log_files > limits.max_log_files {
            return Err("scan log file count");
        }
        if bytes > limits.max_decompressed_bytes {
            return Err("scan decompressed byte count");
        }
        if events > limits.max_evidence_events {
            return Err("scan evidence event count");
        }
        self.log_files = log_files;
        self.decompressed_bytes = bytes;
        self.evidence_events = events;
        Ok(())
    }

    /// A log that failed to parse is charged as if it had used a whole log's limits.
    pub fn charge_failed_parse(&mut self, limits: &ScanParseLimits) -> (r: Result<(), &'static str>)
        ensures
            outcome(r) == scan_retain_spec(*old(self), 268_435_456, 250_000, *limits),
            r is Ok ==> *final(self) == (ScanParseBudget {
                log_files: (old(self).log_files + 1) as usize,
                decompressed_bytes: (old(self).decompressed_bytes + 268_435_456) as u64,
                evidence_events: (old(self).evidence_events + 250_000) as u64,
                ..*old(self)
            }),
            r is Err ==> *final(self) == *old(self),
    {
        let per_log = LogParseLimits::production();
        self.retain_log(per_log.max_decompressed_bytes, per_log.max_evidence_events, limits)
    }

    /// Counts an instance's sessions and contexts against the scan.
    pub fn retain_reconstruction(&mut self, sessions: usize, contexts: usize, limits: &ScanParseLimits) -> (r:
        Result<(), &'static str>)
        ensures
            outcome(r) == scan_reconstruction_spec(*old(self), sessions, contexts, *limits),
            r is Ok ==> *final(self) == (ScanParseBudget {
                reconstructed_sessions: (old(self).reconstructed_sessions + sessions) as usize,
                contexts: (old(self).contexts + contexts) as usize,
                ..*old(self)
            }),
            r is Err ==> *final(self) == *old(self),
    {
        let total_sessions = match self.reconstructed_sessions.checked_add(sessions) {
            Some(v) => v,
            None => return Err("scan reconstructed session count"),
        };
        let total_contexts = match self.contexts.checked_add(contexts) {
            Some(v) => v,
            None => return Err("scan context count"),
        };
        if total_sessions > limits.max_reconstructed_sessions {
            return Err("scan reconstructed session count");
        }
        if total_contexts > limits.max_contexts {
            return Err("scan context count");
        }
        self.reconstructed_sessions = total_sessions;
        self.contexts = total_contexts;
        Ok(())
    }
}

} // verus!
