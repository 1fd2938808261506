//! The rows a scan stages for one instance: evidence with stable ids,
//! sessions with canonical keys and their activities. Ids are BLAKE3 digests
//! of length-framed pieces; the JSON inside keys is framed here, its strings
//! escaped by serde_json.

use vstd::prelude::*;

use crate::encoding::{hex_of, hex_prefix};
use crate::external::{blake3_digest, blake3_hash, json_string, json_string_text};
use crate::parser::minecraft_log::{
    CrashMarker, DisconnectKind, EventView, EvidenceProvenance, EvidenceRule, EvidenceTag, MinecraftLogEvent,
};
use crate::parser::session_reconstruction::{DestinationView, SessionDestination};
use crate::application::scan_service::{
    confidence_label, confidence_name, evidence_role, evidence_role_name, evidence_tag, evidence_tag_name, exit_name,
    format_utc_offset, normalize_address_spec, normalize_server_address, reconstructed_exit, stored_fields_spec,
    stored_session_fields, timestamp_origin, timestamp_origin_name, utc_offset_text,
};
use crate::external::{format_local_millis, local_millis_text};
use crate::parser::log_parser::{EvidenceView, ProvenanceView};
use crate::parser::minecraft_log::{tag_of, LogEvidence, ParsedLog};
use crate::parser::session_reconstruction::{lex_lt, string_lt, LinkView, ReconstructedSession, SessionView};
use crate::scan::model::StagedSource;
use crate::text::str_eq;
use crate::text::{append_chars, chars_of, string_from_chars};

verus! {

/// The `k` low bytes of `n`, least significant first.
pub open spec fn le_bytes(n: nat, k: nat) -> Seq<u8>
    decreases k,
{
    if k == 0 {
        Seq::empty()
    } else {
        seq![(n % 256) as u8] + le_bytes(n / 256, (k - 1) as nat)
    }
}

/// `u64::to_le_bytes`.
pub open spec fn le64(x: u64) -> Seq<u8> {
    le_bytes(x as nat, 8)
}

pub fn le64_bytes(x: u64) -> (r: Vec<u8>)
    ensures
        r@ == le64(x),
{
    let mut r: Vec<u8> = Vec::new();
    let mut n: u64 = x;
    let mut i: usize = 0;
    assert(r@ + le_bytes(n as nat, 8) =~= le64(x));
    while i < 8
        invariant
            i <= 8,
            r@ + le_bytes(n as nat, (8 - i) as nat) == le64(x),
        decreases 8 - i,
    {
        let ghost before = r@;
        r.push((n % 256) as u8);
        assert(before + le_bytes(n as nat, (8 - i) as nat) =~= r@ + le_bytes((n / 256) as nat, (8 - i - 1) as nat));
        n = n / 256;
        i = i + 1;
    }
    assert(le_bytes(n as nat, 0) =~= Seq::<u8>::empty());
    assert(r@ =~= le64(x));
    r
}

/// The bytes a stable digest hashes: each piece after its length as eight
/// little-endian bytes.
pub open spec fn frame(pieces: Seq<Seq<u8>>) -> Seq<u8>
    decreases pieces.len(),
{
    if pieces.len() == 0 {
        Seq::empty()
    } else {
        frame(pieces.drop_last()) + le64(pieces.last().len() as u64) + pieces.last()
    }
}

pub open spec fn byte_views(v: Seq<Vec<u8>>) -> Seq<Seq<u8>> {
    v.map_values(|p: Vec<u8>| p@)
}

fn push_all(v: &mut Vec<u8>, s: &[u8])
    ensures
        final(v)@ == old(v)@ + s@,
{
    let ghost v0 = v@;
    let mut i: usize = 0;
    while i < s.len()
        invariant
            i <= s@.len(),
            v@ == v0 + s@.take(i as int),
        decreases s@.len() - i,
    {
        v.push(s[i]);
        assert(v0 + s@.take(i + 1) =~= (v0 + s@.take(i as int)).push(s@[i as int]));
        i = i + 1;
    }
    assert(s@.take(s@.len() as int) =~= s@);
}

/// `stable_digest`: the BLAKE3 digest of the length-framed pieces.
pub fn stable_digest(pieces: &Vec<Vec<u8>>) -> (r: Vec<u8>)
    ensures
        r@ == blake3_digest(frame(byte_views(pieces@))),
        r@.len() == 32,
{
    let ghost ps = byte_views(pieces@);
    let mut data: Vec<u8> = Vec::new();
    let mut i: usize = 0;
    assert(ps.take(0) =~= Seq::<Seq<u8>>::empty());
    while i < pieces.len()
        invariant
            i <= pieces@.len(),
            ps == byte_views(pieces@),
            data@ == frame(ps.take(i as int)),
        decreases pieces@.len() - i,
    {
        assert(ps.take(i + 1).drop_last() =~= ps.take(i as int));
        assert(ps.take(i + 1).last() == pieces@[i as int]@);
        let piece = &pieces[i];
        let len_bytes = le64_bytes(piece.len() as u64);
        push_all(&mut data, len_bytes.as_slice());
        push_all(&mut data, piece.as_slice());
        i = i + 1;
    }
    assert(ps.take(pieces@.len() as int) =~= ps);
    let digest = blake3_hash(data.as_slice());
    vstd::slice::slice_to_vec(digest.as_slice())
}

/// The UTF-8 bytes of a text.
pub open spec fn utf8(s: Seq<char>) -> Seq<u8> {
    vstd::utf8::encode_utf8(s)
}

fn text_bytes(s: &str) -> (r: Vec<u8>)
    ensures
        r@ == utf8(s@),
{
    vstd::slice::slice_to_vec(s.as_bytes())
}

/// The name a recognition rule is written with in keys (its variant name).
pub open spec fn rule_name(rule: EvidenceRule) -> Seq<char> {
    match rule {
        EvidenceRule::LoadingMinecraft => "LoadingMinecraft"@,
        EvidenceRule::StartingMinecraftClientVersion => "StartingMinecraftClientVersion"@,
        EvidenceRule::ForgeForMinecraftVersion => "ForgeForMinecraftVersion"@,
        EvidenceRule::MinecraftVersionField => "MinecraftVersionField"@,
        EvidenceRule::SettingUser => "SettingUser"@,
        EvidenceRule::LwjglInitialized => "LwjglInitialized"@,
        EvidenceRule::ConnectingToServer => "ConnectingToServer"@,
        EvidenceRule::StartingIntegratedServer => "StartingIntegratedServer"@,
        EvidenceRule::PreparingLevel => "PreparingLevel"@,
        EvidenceRule::PreparingStartRegion => "PreparingStartRegion"@,
        EvidenceRule::DisconnectedFromServer => "DisconnectedFromServer"@,
        EvidenceRule::NetworkDisconnect => "NetworkDisconnect"@,
        EvidenceRule::IntegratedServerStopped => "IntegratedServerStopped"@,
        EvidenceRule::ClientStopping => "ClientStopping"@,
        EvidenceRule::ShutdownComplete => "ShutdownComplete"@,
        EvidenceRule::FatalLogLevel => "FatalLogLevel"@,
        EvidenceRule::UnreportedException => "UnreportedException"@,
        EvidenceRule::CrashReportSaved => "CrashReportSaved"@,
        EvidenceRule::CrashReportHeader => "CrashReportHeader"@,
        EvidenceRule::GameCrashed => "GameCrashed"@,
    }
}

pub fn rule_label(rule: EvidenceRule) -> (r: &'static str)
    ensures
        r@ == rule_name(rule),
{
    match rule {
        EvidenceRule::LoadingMinecraft => "LoadingMinecraft",
        EvidenceRule::StartingMinecraftClientVersion => "StartingMinecraftClientVersion",
        EvidenceRule::ForgeForMinecraftVersion => "ForgeForMinecraftVersion",
        EvidenceRule::MinecraftVersionField => "MinecraftVersionField",
        EvidenceRule::SettingUser => "SettingUser",
        EvidenceRule::LwjglInitialized => "LwjglInitialized",
        EvidenceRule::ConnectingToServer => "ConnectingToServer",
        EvidenceRule::StartingIntegratedServer => "StartingIntegratedServer",
        EvidenceRule::PreparingLevel => "PreparingLevel",
        EvidenceRule::PreparingStartRegion => "PreparingStartRegion",
        EvidenceRule::DisconnectedFromServer => "DisconnectedFromServer",
        EvidenceRule::NetworkDisconnect => "NetworkDisconnect",
        EvidenceRule::IntegratedServerStopped => "IntegratedServerStopped",
        EvidenceRule::ClientStopping => "ClientStopping",
        EvidenceRule::ShutdownComplete => "ShutdownComplete",
        EvidenceRule::FatalLogLevel => "FatalLogLevel",
        EvidenceRule::UnreportedException => "UnreportedException",
        EvidenceRule::CrashReportSaved => "CrashReportSaved",
        EvidenceRule::CrashReportHeader => "CrashReportHeader",
        EvidenceRule::GameCrashed => "GameCrashed",
    }
}

/// The pieces that identify one evidence record: its source, line, first
/// byte, rule and kind.
pub open spec fn evidence_pieces(source_id: Seq<char>, line: u64, byte_start: u64, rule: EvidenceRule, tag: EvidenceTag) -> Seq<
    Seq<u8>,
> {
    seq![utf8(source_id), le64(line), le64(byte_start), utf8(rule_name(rule)), utf8(evidence_tag_name(tag))]
}

/// The key of one evidence record.
pub open spec fn evidence_key_spec(source_id: Seq<char>, line: u64, byte_start: u64, rule: EvidenceRule, tag: EvidenceTag) -> Seq<
    u8,
> {
    blake3_digest(frame(evidence_pieces(source_id, line, byte_start, rule, tag)))
}

/// `evidence_` and the first 24 hex digits of the record's key.
pub open spec fn evidence_id_spec(source_id: Seq<char>, line: u64, byte_start: u64, rule: EvidenceRule, tag: EvidenceTag) -> Seq<
    char,
> {
    "evidence_"@ + hex_of(evidence_key_spec(source_id, line, byte_start, rule, tag)).take(24)
}

/// The stable key of one evidence record.
pub fn evidence_key(provenance: &EvidenceProvenance, tag: EvidenceTag) -> (r: Vec<u8>)
    ensures
        r@ == evidence_key_spec(provenance.source_id@, provenance.line_number, provenance.byte_start, provenance.rule, tag),
        r@.len() == 32,
{
    let mut pieces: Vec<Vec<u8>> = Vec::new();
    pieces.push(text_bytes(provenance.source_id.as_str()));
    pieces.push(le64_bytes(provenance.line_number));
    pieces.push(le64_bytes(provenance.byte_start));
    pieces.push(text_bytes(rule_label(provenance.rule)));
    pieces.push(text_bytes(evidence_tag(tag)));
    assert(byte_views(pieces@) =~= evidence_pieces(
        provenance.source_id@,
        provenance.line_number,
        provenance.byte_start,
        provenance.rule,
        tag,
    ));
    stable_digest(&pieces)
}

fn prefixed_hex(prefix: &str, key: &Vec<u8>) -> (r: String)
    requires
        key@.len() == 32,
    ensures
        r@ == prefix@ + hex_of(key@).take(24),
{
    let hex = hex_prefix(key.as_slice(), 24);
    let mut cs = chars_of(prefix);
    let hs = chars_of(hex.as_str());
    let mut i: usize = 0;
    let ghost c0 = cs@;
    while i < hs.len()
        invariant
            i <= hs@.len(),
            cs@ == c0 + hs@.take(i as int),
        decreases hs@.len() - i,
    {
        cs.push(hs[i]);
        assert(c0 + hs@.take(i + 1) =~= (c0 + hs@.take(i as int)).push(hs@[i as int]));
        i = i + 1;
    }
    assert(hs@.take(hs@.len() as int) =~= hs@);
    string_from_chars(cs.as_slice())
}

/// `evidence_id`: the id of one evidence record.
pub fn evidence_id(provenance: &EvidenceProvenance, tag: EvidenceTag) -> (r: String)
    ensures
        r@ == evidence_id_spec(provenance.source_id@, provenance.line_number, provenance.byte_start, provenance.rule, tag),
{
    let key = evidence_key(provenance, tag);
    prefixed_hex("evidence_", &key)
}


/// Items separated by commas.
pub open spec fn joined(items: Seq<Seq<char>>) -> Seq<char>
    decreases items.len(),
{
    if items.len() == 0 {
        Seq::empty()
    } else if items.len() == 1 {
        items[0]
    } else {
        joined(items.drop_last()) + ","@ + items.last()
    }
}

/// A JSON array of already written values.
pub open spec fn json_array(items: Seq<Seq<char>>) -> Seq<char> {
    "["@ + joined(items) + "]"@
}

/// `serde_json::to_string` of a list of strings.
pub open spec fn strings_json(xs: Seq<Seq<char>>) -> Seq<char> {
    json_array(xs.map_values(|x: Seq<char>| json_string_text(x)))
}

pub open spec fn optional_json(o: Option<Seq<char>>) -> Seq<char> {
    match o {
        Some(t) => json_string_text(t),
        None => "null"@,
    }
}

/// The JSON of a destination as its serde derive writes it: tagged by `kind`.
pub open spec fn destination_json(d: DestinationView) -> Seq<char> {
    match d {
        DestinationView::Server(a) => "{\"kind\":\"server\",\"address\":"@ + json_string_text(a) + "}"@,
        DestinationView::LocalWorld(w) => "{\"kind\":\"local_world\",\"world_name\":"@ + optional_json(w) + "}"@,
    }
}

pub open spec fn destinations_json(ds: Seq<DestinationView>) -> Seq<char> {
    json_array(ds.map_values(|d: DestinationView| destination_json(d)))
}

pub open spec fn disconnect_kind_json(k: DisconnectKind) -> Seq<char> {
    match k {
        DisconnectKind::Remote => "\"remote\""@,
        DisconnectKind::Network => "\"network\""@,
        DisconnectKind::IntegratedServerStopped => "\"integrated_server_stopped\""@,
    }
}

pub open spec fn crash_marker_json(m: CrashMarker) -> Seq<char> {
    match m {
        CrashMarker::FatalLogLevel => "\"fatal_log_level\""@,
        CrashMarker::UnreportedException => "\"unreported_exception\""@,
        CrashMarker::CrashReportSaved => "\"crash_report_saved\""@,
        CrashMarker::CrashReportHeader => "\"crash_report_header\""@,
        CrashMarker::GameCrashed => "\"game_crashed\""@,
    }
}

/// The JSON of an event as its serde derive writes it: tagged by `kind`.
pub open spec fn event_json(e: EventView) -> Seq<char> {
    match e {
        EventView::GameStarted => "{\"kind\":\"game_started\"}"@,
        EventView::VersionObserved(v) => "{\"kind\":\"version_observed\",\"version\":"@ + json_string_text(v) + "}"@,
        EventView::ServerJoined(a) => "{\"kind\":\"server_joined\",\"address\":"@ + json_string_text(a) + "}"@,
        EventView::IntegratedServerStarted(v) => "{\"kind\":\"integrated_server_started\",\"version\":"@
            + optional_json(v) + "}"@,
        EventView::WorldLoaded(w) => "{\"kind\":\"world_loaded\",\"world_name\":"@ + optional_json(w) + "}"@,
        EventView::Disconnected(k) => "{\"kind\":\"disconnected\",\"disconnect_kind\":"@ + disconnect_kind_json(k)
            + "}"@,
        EventView::Stopping => "{\"kind\":\"stopping\"}"@,
        EventView::CleanShutdown => "{\"kind\":\"clean_shutdown\"}"@,
        EventView::Crash(m) => "{\"kind\":\"crash\",\"marker\":"@ + crash_marker_json(m) + "}"@,
    }
}

fn append_str(v: &mut Vec<char>, s: &str)
    ensures
        final(v)@ == old(v)@ + s@,
{
    let cs = chars_of(s);
    append_chars(v, cs.as_slice());
}

fn append_json_string(v: &mut Vec<char>, s: &str)
    ensures
        final(v)@ == old(v)@ + json_string_text(s@),
{
    let j = json_string(s);
    append_str(v, j.as_str());
}

fn append_optional_json(v: &mut Vec<char>, o: &Option<String>)
    ensures
        final(v)@ == old(v)@ + optional_json(crate::parser::minecraft_log::opt_view(*o)),
{
    match o {
        Some(t) => append_json_string(v, t.as_str()),
        None => append_str(v, "null"),
    }
}

proof fn lemma_joined_push(items: Seq<Seq<char>>, x: Seq<char>)
    ensures
        joined(items.push(x)) == if items.len() == 0 {
            x
        } else {
            joined(items) + ","@ + x
        },
{
    let p = items.push(x);
    assert(p.drop_last() =~= items);
    if items.len() == 0 {
        assert(p[0] == x);
    }
}

/// `serde_json::to_string` of a list of strings, written.
pub fn strings_to_json(xs: &Vec<String>) -> (r: String)
    ensures
        r@ == strings_json(crate::parser::session_reconstruction::string_views(xs@)),
{
    let ghost items = crate::parser::session_reconstruction::string_views(xs@).map_values(
        |x: Seq<char>| json_string_text(x),
    );
    let mut v: Vec<char> = Vec::new();
    append_str(&mut v, "[");
    let mut i: usize = 0;
    assert(items.take(0) =~= Seq::<Seq<char>>::empty());
    while i < xs.len()
        invariant
            i <= xs@.len(),
            items == crate::parser::session_reconstruction::string_views(xs@).map_values(
                |x: Seq<char>| json_string_text(x),
            ),
            v@ == "["@ + joined(items.take(i as int)),
        decreases xs@.len() - i,
    {
        let ghost before = v@;
        if i > 0 {
            append_str(&mut v, ",");
        }
        append_json_string(&mut v, xs[i].as_str());
        proof {
            assert(items.take(i + 1) =~= items.take(i as int).push(json_string_text(xs@[i as int]@)));
            lemma_joined_push(items.take(i as int), json_string_text(xs@[i as int]@));
        }
        i = i + 1;
    }
    append_str(&mut v, "]");
    assert(items.take(xs@.len() as int) =~= items);
    string_from_chars(v.as_slice())
}

fn append_destination_json(v: &mut Vec<char>, d: &SessionDestination)
    ensures
        final(v)@ == old(v)@ + destination_json(d@),
{
    match d {
        SessionDestination::Server { address } => {
            append_str(v, "{\"kind\":\"server\",\"address\":");
            append_json_string(v, address.as_str());
            append_str(v, "}");
        },
        SessionDestination::LocalWorld { world_name } => {
            append_str(v, "{\"kind\":\"local_world\",\"world_name\":");
            append_optional_json(v, world_name);
            append_str(v, "}");
        },
    }
}

/// `serde_json::to_string` of a session's destinations, written.
pub fn destinations_to_json(ds: &Vec<SessionDestination>) -> (r: String)
    ensures
        r@ == destinations_json(crate::parser::session_reconstruction::destination_views(ds@)),
{
    let ghost items = crate::parser::session_reconstruction::destination_views(ds@).map_values(
        |d: DestinationView| destination_json(d),
    );
    let mut v: Vec<char> = Vec::new();
    append_str(&mut v, "[");
    let mut i: usize = 0;
    assert(items.take(0) =~= Seq::<Seq<char>>::empty());
    while i < ds.len()
        invariant
            i <= ds@.len(),
            items == crate::parser::session_reconstruction::destination_views(ds@).map_values(
                |d: DestinationView| destination_json(d),
            ),
            v@ == "["@ + joined(items.take(i as int)),
        decreases ds@.len() - i,
    {
        if i > 0 {
            append_str(&mut v, ",");
        }
        append_destination_json(&mut v, &ds[i]);
        proof {
            assert(items.take(i + 1) =~= items.take(i as int).push(destination_json(ds@[i as int]@)));
            lemma_joined_push(items.take(i as int), destination_json(ds@[i as int]@));
        }
        i = i + 1;
    }
    append_str(&mut v, "]");
    assert(items.take(ds@.len() as int) =~= items);
    string_from_chars(v.as_slice())
}

/// `serde_json::to_string` of an event, written.
pub fn event_to_json(e: &MinecraftLogEvent) -> (r: String)
    ensures
        r@ == event_json(e@),
{
    let mut v: Vec<char> = Vec::new();
    match e {
        MinecraftLogEvent::GameStarted => append_str(&mut v, "{\"kind\":\"game_started\"}"),
        MinecraftLogEvent::VersionObserved { version } => {
            append_str(&mut v, "{\"kind\":\"version_observed\",\"version\":");
            append_json_string(&mut v, version.as_str());
            append_str(&mut v, "}");
        },
        MinecraftLogEvent::ServerJoined { address } => {
            append_str(&mut v, "{\"kind\":\"server_joined\",\"address\":");
            append_json_string(&mut v, address.as_str());
            append_str(&mut v, "}");
        },
        MinecraftLogEvent::IntegratedServerStarted { version } => {
            append_str(&mut v, "{\"kind\":\"integrated_server_started\",\"version\":");
            append_optional_json(&mut v, version);
            append_str(&mut v, "}");
        },
        MinecraftLogEvent::WorldLoaded { world_name } => {
            append_str(&mut v, "{\"kind\":\"world_loaded\",\"world_name\":");
            append_optional_json(&mut v, world_name);
            append_str(&mut v, "}");
        },
        MinecraftLogEvent::Disconnected { disconnect_kind } => {
            append_str(&mut v, "{\"kind\":\"disconnected\",\"disconnect_kind\":");
            append_str(
                &mut v,
                match disconnect_kind {
                    DisconnectKind::Remote => "\"remote\"",
                    DisconnectKind::Network => "\"network\"",
                    DisconnectKind::IntegratedServerStopped => "\"integrated_server_stopped\"",
                },
            );
            append_str(&mut v, "}");
        },
        MinecraftLogEvent::Stopping => append_str(&mut v, "{\"kind\":\"stopping\"}"),
        MinecraftLogEvent::CleanShutdown => append_str(&mut v, "{\"kind\":\"clean_shutdown\"}"),
        MinecraftLogEvent::Crash { marker } => {
            append_str(&mut v, "{\"kind\":\"crash\",\"marker\":");
            append_str(
                &mut v,
                match marker {
                    CrashMarker::FatalLogLevel => "\"fatal_log_level\"",
                    CrashMarker::UnreportedException => "\"unreported_exception\"",
                    CrashMarker::CrashReportSaved => "\"crash_report_saved\"",
                    CrashMarker::CrashReportHeader => "\"crash_report_header\"",
                    CrashMarker::GameCrashed => "\"game_crashed\"",
                },
            );
            append_str(&mut v, "}");
        },
    }
    assert(v@ =~= event_json(e@));
    string_from_chars(v.as_slice())
}


/// One evidence record as it is staged.
pub struct StagedEvidence {
    pub id: String,
    pub source_revision_id: String,
    pub event_order: u64,
    pub line_number: u64,
    pub byte_start: u64,
    pub byte_end: u64,
    pub kind: String,
    pub observed_local: Option<String>,
    pub occurred_at_utc_ms: Option<i64>,
    pub utc_offset_minutes: Option<i32>,
    pub timestamp_origin: String,
    pub confidence_score: u8,
    pub payload_json: String,
    pub event_key: Vec<u8>,
}

/// A session's link to one evidence record.
pub struct StagedEvidenceLink {
    pub evidence_event_id: String,
    pub role: String,
}

/// What a session did: joined a server or played a local world.
pub enum StagedActivity {
    Server {
        id: String,
        canonical_address: String,
        original_address: String,
        started_at_utc_ms: Option<i64>,
        ended_at_utc_ms: Option<i64>,
        confidence_score: u8,
    },
    World {
        world_name: String,
        started_at_utc_ms: Option<i64>,
        ended_at_utc_ms: Option<i64>,
        confidence_score: u8,
    },
}

/// One session as it is staged.
pub struct StagedSession {
    pub id: String,
    pub started_at_utc_ms: i64,
    pub ended_at_utc_ms: Option<i64>,
    pub duration_seconds: Option<u64>,
    pub exit_kind: String,
    pub confidence_score: u8,
    pub confidence_label: String,
    pub reconstruction_revision: u16,
    pub canonical_key: Vec<u8>,
    pub timezone_id: Option<String>,
    pub minecraft_version: Option<String>,
    pub loader: Option<String>,
    pub utc_offset_minutes: Option<i32>,
    pub evidence_links: Vec<StagedEvidenceLink>,
    pub source_revision_ids: Vec<String>,
    pub activities: Vec<StagedActivity>,
}

pub open spec fn opt_text(o: Option<String>) -> Option<Seq<char>> {
    match o {
        Some(t) => Some(t@),
        None => None,
    }
}

/// What the staged row of the `order`-th evidence record of a log holds.
pub open spec fn evidence_row_matches(r: StagedEvidence, order: int, e: EvidenceView) -> bool {
    let p = e.provenance;
    let tag = tag_of(e.event);
    &&& r.id@ == evidence_id_spec(p.source_id, p.line_number, p.byte_start, p.rule, tag)
    &&& r.source_revision_id@ == p.source_id
    &&& r.event_order == order
    &&& r.line_number == p.line_number
    &&& r.byte_start == p.byte_start
    &&& r.byte_end == p.byte_end
    &&& r.kind@ == evidence_tag_name(tag)
    &&& opt_text(r.observed_local) == match e.timestamp.observed_local {
        Some(l) => Some(local_millis_text(l)),
        None => None,
    }
    &&& r.occurred_at_utc_ms == e.timestamp.occurred_at_utc_ms
    &&& r.utc_offset_minutes == e.timestamp.utc_offset_minutes
    &&& r.timestamp_origin@ == timestamp_origin_name(e.timestamp.origin)
    &&& r.confidence_score == e.confidence_score
    &&& r.payload_json@ == event_json(e.event)
    &&& r.event_key@ == evidence_key_spec(p.source_id, p.line_number, p.byte_start, p.rule, tag)
}

/// The staged row of the `order`-th evidence record of a log.
pub fn evidence_row(order: u64, evidence: &LogEvidence) -> (r: StagedEvidence)
    ensures
        evidence_row_matches(r, order as int, evidence@),
{
    let tag = evidence.event.tag();
    let p = &evidence.provenance;
    StagedEvidence {
        id: evidence_id(p, tag),
        source_revision_id: p.source_id.clone(),
        event_order: order,
        line_number: p.line_number,
        byte_start: p.byte_start,
        byte_end: p.byte_end,
        kind: string_from_chars(chars_of(evidence_tag(tag)).as_slice()),
        observed_local: match evidence.timestamp.observed_local {
            Some(l) => Some(format_local_millis(l)),
            None => None,
        },
        occurred_at_utc_ms: evidence.timestamp.occurred_at_utc_ms,
        utc_offset_minutes: evidence.timestamp.utc_offset_minutes,
        timestamp_origin: string_from_chars(chars_of(timestamp_origin(evidence.timestamp.origin)).as_slice()),
        confidence_score: evidence.confidence_score,
        payload_json: event_to_json(&evidence.event),
        event_key: evidence_key(p, tag),
    }
}

/// The pieces that identify one session of an instance.
pub open spec fn session_pieces(instance_id: Seq<char>, started: i64, ended: i64, s: SessionView) -> Seq<Seq<u8>> {
    seq![
        utf8(instance_id),
        le64(started as u64),
        le64(ended as u64),
        utf8(strings_json(s.versions)),
        utf8(destinations_json(s.destinations)),
    ]
}

/// The id of a server: `server_` and 24 hex digits of its address's digest.
pub open spec fn server_id_spec(canonical: Seq<char>) -> Seq<char> {
    "server_"@ + hex_of(blake3_digest(frame(seq![utf8(canonical)]))).take(24)
}

/// What a staged activity holds for a destination of a session.
pub open spec fn activity_matches(a: StagedActivity, d: DestinationView, started: i64, ended: Option<i64>, score: u8) -> bool {
    match d {
        DestinationView::Server(address) => {
            let canonical = normalize_address_spec(address);
            a matches StagedActivity::Server {
                id,
                canonical_address,
                original_address,
                started_at_utc_ms,
                ended_at_utc_ms,
                confidence_score,
            } && id@ == server_id_spec(canonical) && canonical_address@ == canonical && original_address@ == address
                && started_at_utc_ms == Some(started) && ended_at_utc_ms == ended && confidence_score == score
        },
        DestinationView::LocalWorld(w) => {
            a matches StagedActivity::World { world_name, started_at_utc_ms, ended_at_utc_ms, confidence_score }
                && world_name@ == match w {
                Some(n) => n,
                None => "Unnamed local world"@,
            } && started_at_utc_ms == Some(started) && ended_at_utc_ms == ended && confidence_score == score
        },
    }
}

/// What a staged link holds for a session's link to its evidence.
pub open spec fn link_matches(r: StagedEvidenceLink, l: LinkView) -> bool {
    &&& r.evidence_event_id@ == evidence_id_spec(
        l.provenance.source_id,
        l.provenance.line_number,
        l.provenance.byte_start,
        l.provenance.rule,
        l.evidence_tag,
    )
    &&& r.role@ == evidence_role_name(l.role)
}

/// What the staged row of a reconstructed session holds; nothing is staged
/// for a session without a UTC start.
pub open spec fn session_row_matches(r: Option<StagedSession>, instance_id: Seq<char>, s: SessionView) -> bool {
    match stored_fields_spec(
        s.started_at.occurred_at_utc_ms,
        s.ended_at.occurred_at_utc_ms,
        s.duration_seconds,
        s.end_boundary,
        s.confidence_score,
        s.confidence_label,
        s.exit_kind,
    ) {
        None => r is None,
        Some(f) => {
            let started = f.started_at_utc_ms;
            let key = blake3_digest(
                frame(
                    session_pieces(
                        instance_id,
                        started,
                        match f.ended_at_utc_ms {
                            Some(e) => e,
                            None => started,
                        },
                        s,
                    ),
                ),
            );
            &&& r is Some
            &&& r->0.id@ == "session_"@ + hex_of(key).take(24)
            &&& r->0.canonical_key@ == key
            &&& r->0.started_at_utc_ms == started
            &&& r->0.ended_at_utc_ms == f.ended_at_utc_ms
            &&& r->0.duration_seconds == f.duration_seconds
            &&& r->0.exit_kind@ == exit_name(f.exit_kind)
            &&& r->0.confidence_score == f.confidence_score
            &&& r->0.confidence_label@ == confidence_name(f.confidence)
            &&& r->0.reconstruction_revision == s.reconstruction_revision
            &&& opt_text(r->0.timezone_id) == match s.started_at.utc_offset_minutes {
                Some(m) => Some(utc_offset_text(m)),
                None => None,
            }
            &&& opt_text(r->0.minecraft_version) == if s.versions.len() > 0 {
                Some(s.versions.last())
            } else {
                None
            }
            &&& r->0.loader is None
            &&& r->0.utc_offset_minutes == s.started_at.utc_offset_minutes
            &&& r->0.evidence_links@.len() == s.evidence.len()
            &&& forall|i: int|
                0 <= i < s.evidence.len() ==> link_matches(#[trigger] r->0.evidence_links@[i], s.evidence[i])
            &&& crate::parser::session_reconstruction::string_views(r->0.source_revision_ids@) == s.source_ids
            &&& r->0.activities@.len() == s.destinations.len()
            &&& forall|i: int|
                0 <= i < s.destinations.len() ==> activity_matches(
                    #[trigger] r->0.activities@[i],
                    s.destinations[i],
                    started,
                    f.ended_at_utc_ms,
                    f.confidence_score,
                )
        },
    }
}

fn clone_strings(v: &Vec<String>) -> (r: Vec<String>)
    ensures
        crate::parser::session_reconstruction::string_views(r@) == crate::parser::session_reconstruction::string_views(v@),
{
    let mut r: Vec<String> = Vec::new();
    let mut i: usize = 0;
    while i < v.len()
        invariant
            i <= v@.len(),
            crate::parser::session_reconstruction::string_views(r@) == crate::parser::session_reconstruction::string_views(
                v@,
            ).take(i as int),
        decreases v@.len() - i,
    {
        r.push(v[i].clone());
        assert(crate::parser::session_reconstruction::string_views(v@).take(i + 1)
            =~= crate::parser::session_reconstruction::string_views(v@).take(i as int).push(v@[i as int]@));
        assert(crate::parser::session_reconstruction::string_views(r@) =~= crate::parser::session_reconstruction::string_views(
            v@,
        ).take(i + 1));
        i = i + 1;
    }
    assert(crate::parser::session_reconstruction::string_views(v@).take(v@.len() as int)
        =~= crate::parser::session_reconstruction::string_views(v@));
    r
}

fn staged_activity(d: &SessionDestination, started: i64, ended: Option<i64>, score: u8) -> (r: StagedActivity)
    ensures
        activity_matches(r, d@, started, ended, score),
{
    match d {
        SessionDestination::Server { address } => {
            let canonical = normalize_server_address(address.as_str());
            let mut pieces: Vec<Vec<u8>> = Vec::new();
            pieces.push(text_bytes(canonical.as_str()));
            assert(byte_views(pieces@) =~= seq![utf8(canonical@)]);
            let key = stable_digest(&pieces);
            StagedActivity::Server {
                id: prefixed_hex("server_", &key),
                canonical_address: canonical,
                original_address: address.clone(),
                started_at_utc_ms: Some(started),
                ended_at_utc_ms: ended,
                confidence_score: score,
            }
        },
        SessionDestination::LocalWorld { world_name } => StagedActivity::World {
            world_name: match world_name {
                Some(n) => n.clone(),
                None => string_from_chars(chars_of("Unnamed local world").as_slice()),
            },
            started_at_utc_ms: Some(started),
            ended_at_utc_ms: ended,
            confidence_score: score,
        },
    }
}

/// The staged row of a reconstructed session of an instance, if it has a UTC start.
pub fn session_row(instance_id: &String, session: &ReconstructedSession) -> (r: Option<StagedSession>)
    ensures
        session_row_matches(r, instance_id@, session@),
{
    let fields = match stored_session_fields(session) {
        Some(f) => f,
        None => {
            return None;
        },
    };
    let started = fields.started_at_utc_ms;
    let ended = fields.ended_at_utc_ms;
    let mut pieces: Vec<Vec<u8>> = Vec::new();
    pieces.push(text_bytes(instance_id.as_str()));
    pieces.push(le64_bytes(started as u64));
    pieces.push(
        le64_bytes(
            (match ended {
                Some(e) => e,
                None => started,
            }) as u64,
        ),
    );
    let versions_json = strings_to_json(&session.versions);
    pieces.push(text_bytes(versions_json.as_str()));
    let destinations = destinations_to_json(&session.destinations);
    pieces.push(text_bytes(destinations.as_str()));
    assert(byte_views(pieces@) =~= session_pieces(
        instance_id@,
        started,
        match ended {
            Some(e) => e,
            None => started,
        },
        session@,
    ));
    let key = stable_digest(&pieces);
    let id = prefixed_hex("session_", &key);
    let mut activities: Vec<StagedActivity> = Vec::new();
    let mut i: usize = 0;
    while i < session.destinations.len()
        invariant
            i <= session.destinations@.len(),
            activities@.len() == i,
            forall|k: int|
                0 <= k < i ==> activity_matches(
                    #[trigger] activities@[k],
                    session.destinations@[k]@,
                    started,
                    ended,
                    fields.confidence_score,
                ),
        decreases session.destinations@.len() - i,
    {
        activities.push(staged_activity(&session.destinations[i], started, ended, fields.confidence_score));
        i = i + 1;
    }
    let mut links: Vec<StagedEvidenceLink> = Vec::new();
    let mut j: usize = 0;
    while j < session.evidence.len()
        invariant
            j <= session.evidence@.len(),
            links@.len() == j,
            forall|k: int| 0 <= k < j ==> link_matches(#[trigger] links@[k], session.evidence@[k]@),
        decreases session.evidence@.len() - j,
    {
        let link = &session.evidence[j];
        links.push(
            StagedEvidenceLink {
                evidence_event_id: evidence_id(&link.provenance, link.evidence_tag),
                role: string_from_chars(chars_of(evidence_role(link.role)).as_slice()),
            },
        );
        j = j + 1;
    }
    let minecraft_version = if session.versions.len() > 0 {
        Some(session.versions[session.versions.len() - 1].clone())
    } else {
        None
    };
    Some(
        StagedSession {
            id,
            started_at_utc_ms: started,
            ended_at_utc_ms: ended,
            duration_seconds: fields.duration_seconds,
            exit_kind: string_from_chars(chars_of(reconstructed_exit(fields.exit_kind)).as_slice()),
            confidence_score: fields.confidence_score,
            confidence_label: string_from_chars(chars_of(confidence_label(fields.confidence)).as_slice()),
            reconstruction_revision: session.reconstruction_revision,
            canonical_key: key,
            timezone_id: match session.started_at.utc_offset_minutes {
                Some(m) => Some(format_utc_offset(m)),
                None => None,
            },
            minecraft_version,
            loader: None,
            utc_offset_minutes: session.started_at.utc_offset_minutes,
            evidence_links: links,
            source_revision_ids: clone_strings(&session.source_ids),
            activities,
        },
    )
}


/// An instance as the archive stores it.
pub struct StoredInstance {
    pub id: String,
    pub relative_root: String,
    pub name: String,
}

/// Everything a scan stages for one instance.
pub struct ReconstructionPayload {
    pub instance_id: String,
    pub replace_all_instance_evidence: bool,
    pub source_path_ids: Vec<String>,
    pub minecraft_version: Option<String>,
    pub loader: Option<String>,
    pub evidence: Vec<StagedEvidence>,
    pub sessions: Vec<StagedSession>,
}

/// The staged evidence rows of `logs`: each log's records in order, numbered from zero.
pub open spec fn rows_match(rows: Seq<StagedEvidence>, logs: Seq<ParsedLog>) -> bool
    decreases logs.len(),
{
    if logs.len() == 0 {
        rows.len() == 0
    } else {
        let n = logs.last().evidence@.len();
        &&& rows.len() >= n
        &&& rows_match(rows.take(rows.len() - n), logs.drop_last())
        &&& forall|i: int|
            0 <= i < n ==> evidence_row_matches(#[trigger] rows[rows.len() - n + i], i, logs.last().evidence@[i]@)
    }
}

/// The staged session rows of `sessions`: one for each session with a UTC start, in order.
pub open spec fn sessions_match(rows: Seq<StagedSession>, sessions: Seq<ReconstructedSession>, instance_id: Seq<char>) -> bool
    decreases sessions.len(),
{
    if sessions.len() == 0 {
        rows.len() == 0
    } else {
        let s = sessions.last()@;
        match stored_fields_spec(
            s.started_at.occurred_at_utc_ms,
            s.ended_at.occurred_at_utc_ms,
            s.duration_seconds,
            s.end_boundary,
            s.confidence_score,
            s.confidence_label,
            s.exit_kind,
        ) {
            None => sessions_match(rows, sessions.drop_last(), instance_id),
            Some(_) => rows.len() > 0 && sessions_match(rows.drop_last(), sessions.drop_last(), instance_id)
                && session_row_matches(Some(rows.last()), instance_id, s),
        }
    }
}

/// The last version any session observed.
pub open spec fn last_version(sessions: Seq<ReconstructedSession>) -> Option<Seq<char>>
    decreases sessions.len(),
{
    if sessions.len() == 0 {
        None
    } else if sessions.last().versions@.len() > 0 {
        Some(sessions.last().versions@.last()@)
    } else {
        last_version(sessions.drop_last())
    }
}

/// Inserts `x` into a sorted list of distinct texts, unless it is there.
pub open spec fn insert_sorted_unique(s: Seq<Seq<char>>, x: Seq<char>) -> Seq<Seq<char>>
    decreases s.len(),
{
    if s.len() == 0 {
        seq![x]
    } else if lex_lt(s.last(), x) {
        s.push(x)
    } else if s.last() == x {
        s
    } else {
        insert_sorted_unique(s.drop_last(), x).push(s.last())
    }
}

/// The paths of the sources whose revisions were parsed, sorted, each once.
pub open spec fn parsed_source_paths(sources: Seq<StagedSource>, parsed: Seq<Seq<char>>) -> Seq<Seq<char>>
    decreases sources.len(),
{
    if sources.len() == 0 {
        Seq::empty()
    } else {
        let p = parsed_source_paths(sources.drop_last(), parsed);
        if parsed.contains(sources.last().source_revision_id@) {
            insert_sorted_unique(p, sources.last().source_path_id@)
        } else {
            p
        }
    }
}

pub open spec fn parsed_ids(logs: Seq<ParsedLog>) -> Seq<Seq<char>> {
    logs.map_values(|l: ParsedLog| l.context.source_id@)
}

fn insert_path(sorted: &mut Vec<String>, x: String)
    ensures
        crate::parser::session_reconstruction::string_views(final(sorted)@) == insert_sorted_unique(
            crate::parser::session_reconstruction::string_views(old(sorted)@),
            x@,
        ),
{
    let ghost s = crate::parser::session_reconstruction::string_views(sorted@);
    let mut j: usize = sorted.len();
    assert(s.take(j as int) =~= s);
    assert(insert_sorted_unique(s, x@) =~= insert_sorted_unique(s.take(j as int), x@) + s.skip(j as int));
    while j > 0 && string_lt(&x, &sorted[j - 1])
        invariant
            j <= s.len(),
            s == crate::parser::session_reconstruction::string_views(sorted@),
            insert_sorted_unique(s, x@) == insert_sorted_unique(s.take(j as int), x@) + s.skip(j as int),
        decreases j,
    {
        proof {
            let t = s.take(j as int);
            assert(t.last() == s[j - 1]);
            crate::parser::reconstruction_laws::lemma_lex_lt_asymmetric(x@, s[j - 1]);
            assert(t.drop_last() =~= s.take(j - 1));
            assert(insert_sorted_unique(t, x@) == insert_sorted_unique(s.take(j - 1), x@).push(s[j - 1]));
            assert(insert_sorted_unique(s.take(j - 1), x@).push(s[j - 1]) + s.skip(j as int)
                =~= insert_sorted_unique(s.take(j - 1), x@) + s.skip(j - 1));
        }
        j = j - 1;
    }
    if j > 0 && str_eq(sorted[j - 1].as_str(), x.as_str()) {
        proof {
            let t = s.take(j as int);
            assert(t.last() == s[j - 1]);
            crate::parser::reconstruction_laws::lemma_lex_lt_asymmetric(x@, s[j - 1]);
            assert(!lex_lt(s[j - 1], x@)) by {
                if lex_lt(s[j - 1], x@) {
                    assert(s[j - 1] == x@);
                    crate::parser::reconstruction_laws::lemma_lex_lt_asymmetric(x@, x@);
                }
            }
            assert(insert_sorted_unique(t, x@) == t);
            assert(t + s.skip(j as int) =~= s);
        }
        return;
    }
    proof {
        let t = s.take(j as int);
        if j == 0 {
            assert(t =~= Seq::<Seq<char>>::empty());
        } else {
            assert(t.last() == s[j - 1]);
            crate::parser::reconstruction_laws::lemma_lex_lt_total(s[j - 1], x@);
        }
        assert(insert_sorted_unique(t, x@) =~= t.push(x@));
    }
    sorted.insert(j, x);
    proof {
        assert(crate::parser::session_reconstruction::string_views(sorted@) =~= s.take(j as int).push(x@) + s.skip(
            j as int,
        ));
    }
}

fn contains_text(v: &Vec<&String>, x: &String) -> (r: bool)
    ensures
        r == v@.map_values(|t: &String| t@).contains(x@),
{
    let ghost vv = v@.map_values(|t: &String| t@);
    let mut i: usize = 0;
    while i < v.len()
        invariant
            i <= v@.len(),
            vv == v@.map_values(|t: &String| t@),
            forall|k: int| 0 <= k < i ==> vv[k] != x@,
        decreases v@.len() - i,
    {
        if str_eq(v[i].as_str(), x.as_str()) {
            assert(vv[i as int] == x@);
            return true;
        }
        i = i + 1;
    }
    false
}

/// `build_payload`: the rows a scan stages for one instance, from its
/// staged sources, its parsed logs and its reconstructed sessions.
pub fn build_payload(
    instance: &StoredInstance,
    replace_all: bool,
    sources: &Vec<StagedSource>,
    logs: &Vec<ParsedLog>,
    sessions: &Vec<ReconstructedSession>,
) -> (r: ReconstructionPayload)
    ensures
        r.instance_id@ == instance.id@,
        r.replace_all_instance_evidence == replace_all,
        crate::parser::session_reconstruction::string_views(r.source_path_ids@) == parsed_source_paths(
            sources@,
            parsed_ids(logs@),
        ),
        opt_text(r.minecraft_version) == last_version(sessions@),
        r.loader is None,
        rows_match(r.evidence@, logs@),
        sessions_match(r.sessions@, sessions@, instance.id@),
{
    let mut evidence_rows: Vec<StagedEvidence> = Vec::new();
    let mut k: usize = 0;
    assert(logs@.take(0) =~= Seq::<ParsedLog>::empty());
    while k < logs.len()
        invariant
            k <= logs@.len(),
            rows_match(evidence_rows@, logs@.take(k as int)),
        decreases logs@.len() - k,
    {
        let log = &logs[k];
        let ghost base = evidence_rows@;
        let mut i: usize = 0;
        while i < log.evidence.len()
            invariant
                i <= log.evidence@.len(),
                evidence_rows@.len() == base.len() + i,
                evidence_rows@.take(base.len() as int) == base,
                forall|t: int|
                    0 <= t < i ==> evidence_row_matches(#[trigger] evidence_rows@[base.len() + t], t, log.evidence@[t]@),
            decreases log.evidence@.len() - i,
        {
            let row = evidence_row(i as u64, &log.evidence[i]);
            let ghost before = evidence_rows@;
            evidence_rows.push(row);
            assert(evidence_rows@.take(base.len() as int) =~= before.take(base.len() as int));
            assert forall|t: int| 0 <= t < i + 1 implies evidence_row_matches(
                #[trigger] evidence_rows@[base.len() + t],
                t,
                log.evidence@[t]@,
            ) by {
                if t < i {
                    assert(evidence_rows@[base.len() + t] == before[base.len() + t]);
                }
            }
            i = i + 1;
        }
        proof {
            let rows = evidence_rows@;
            let ls = logs@.take(k + 1);
            assert(ls.drop_last() =~= logs@.take(k as int));
            assert(ls.last() == *log);
            assert(rows.take(rows.len() - log.evidence@.len()) =~= base);
            assert forall|t: int| 0 <= t < log.evidence@.len() implies evidence_row_matches(
                #[trigger] rows[rows.len() - log.evidence@.len() + t],
                t,
                ls.last().evidence@[t]@,
            ) by {
                assert(rows.len() - log.evidence@.len() + t == base.len() + t);
            }
        }
        k = k + 1;
    }
    assert(logs@.take(logs@.len() as int) =~= logs@);

    let mut staged: Vec<StagedSession> = Vec::new();
    let mut m: usize = 0;
    assert(sessions@.take(0) =~= Seq::<ReconstructedSession>::empty());
    while m < sessions.len()
        invariant
            m <= sessions@.len(),
            sessions_match(staged@, sessions@.take(m as int), instance.id@),
        decreases sessions@.len() - m,
    {
        let ghost before = staged@;
        assert(sessions@.take(m + 1).drop_last() =~= sessions@.take(m as int));
        assert(sessions@.take(m + 1).last() == sessions@[m as int]);
        match session_row(&instance.id, &sessions[m]) {
            Some(row) => {
                staged.push(row);
                assert(staged@.drop_last() =~= before);
            },
            None => {},
        }
        m = m + 1;
    }
    assert(sessions@.take(sessions@.len() as int) =~= sessions@);

    let mut minecraft_version: Option<String> = None;
    let mut v: usize = 0;
    while v < sessions.len()
        invariant
            v <= sessions@.len(),
            opt_text(minecraft_version) == last_version(sessions@.take(v as int)),
        decreases sessions@.len() - v,
    {
        assert(sessions@.take(v + 1).drop_last() =~= sessions@.take(v as int));
        assert(sessions@.take(v + 1).last() == sessions@[v as int]);
        let versions = &sessions[v].versions;
        if versions.len() > 0 {
            minecraft_version = Some(versions[versions.len() - 1].clone());
        }
        v = v + 1;
    }
    assert(sessions@.take(sessions@.len() as int) =~= sessions@);

    let mut parsed: Vec<&String> = Vec::new();
    let mut p: usize = 0;
    while p < logs.len()
        invariant
            p <= logs@.len(),
            parsed@.map_values(|t: &String| t@) == parsed_ids(logs@).take(p as int),
        decreases logs@.len() - p,
    {
        let ghost before = parsed@;
        parsed.push(&logs[p].context.source_id);
        assert(parsed@ == before.push(&logs@[p as int].context.source_id));
        assert(parsed_ids(logs@).take(p + 1) =~= parsed_ids(logs@).take(p as int).push(
            logs@[p as int].context.source_id@,
        ));
        assert(parsed@.map_values(|t: &String| t@) =~= parsed_ids(logs@).take(p + 1));
        p = p + 1;
    }
    assert(parsed_ids(logs@).take(logs@.len() as int) =~= parsed_ids(logs@));
    let mut paths: Vec<String> = Vec::new();
    let mut q: usize = 0;
    assert(sources@.take(0) =~= Seq::<StagedSource>::empty());
    assert(crate::parser::session_reconstruction::string_views(paths@) =~= Seq::<Seq<char>>::empty());
    while q < sources.len()
        invariant
            q <= sources@.len(),
            parsed@.map_values(|t: &String| t@) == parsed_ids(logs@),
            crate::parser::session_reconstruction::string_views(paths@) == parsed_source_paths(
                sources@.take(q as int),
                parsed_ids(logs@),
            ),
        decreases sources@.len() - q,
    {
        assert(sources@.take(q + 1).drop_last() =~= sources@.take(q as int));
        assert(sources@.take(q + 1).last() == sources@[q as int]);
        let source = &sources[q];
        if contains_text(&parsed, &source.source_revision_id) {
            insert_path(&mut paths, source.source_path_id.clone());
        }
        q = q + 1;
    }
    assert(sources@.take(sources@.len() as int) =~= sources@);
    ReconstructionPayload {
        instance_id: instance.id.clone(),
        replace_all_instance_evidence: replace_all,
        source_path_ids: paths,
        minecraft_version,
        loader: None,
        evidence: evidence_rows,
        sessions: staged,
    }
}

} // verus!
