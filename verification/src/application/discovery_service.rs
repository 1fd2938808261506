//! Resolving the launcher locations to show: the installations the adapters
//! find, merged with the locations the user saved, one per native path key
//! and in key order.

use vstd::prelude::*;

use crate::application::profile_service::{folder_name, folder_name_spec};
use crate::application::scan_service::{bytes_less, bytes_lt};
use crate::application::scan_worker::bytes_equal;
use crate::domain::confidence::{confidence_from_score, Confidence};
use crate::domain::location::{
    adapter_label, report_supported, AdapterKind, DirectoryKind, DiscoveredInstallation, PlatformKind,
    ValidationReport,
};
use crate::platform::paths::{location_id_spec, stable_location_id};
use crate::text::{append_chars, chars_of, string_from_chars};

verus! {

pub struct InstallView {
    pub id: Seq<char>,
    pub name: Seq<char>,
    pub kind_label: Seq<char>,
    pub adapter_kind: AdapterKind,
    pub path: Seq<char>,
    pub instances: usize,
    pub confidence: Confidence,
    pub validation_score: u8,
    pub enabled: bool,
    pub platform: PlatformKind,
    pub origin: Seq<char>,
}

pub open spec fn install_view(i: DiscoveredInstallation) -> InstallView {
    InstallView {
        id: i.id@,
        name: i.name@,
        kind_label: i.kind_label@,
        adapter_kind: i.adapter_kind,
        path: i.path@,
        instances: i.instances,
        confidence: i.confidence,
        validation_score: i.validation_score,
        enabled: i.enabled,
        platform: i.platform,
        origin: i.origin@,
    }
}

/// How many game directories an installation holds, by the kind of its root.
pub open spec fn instances_of(kind: DirectoryKind, instance_count: usize) -> usize {
    match kind {
        DirectoryKind::GameDirectory | DirectoryKind::InstanceDirectory => 1,
        DirectoryKind::LauncherRoot => instance_count,
        DirectoryKind::Unknown => 0,
    }
}

/// An installation found at `path` (whose native key is `path_key`) by an
/// adapter of the given kind; its id depends on the key alone.
pub fn installation(
    path: String,
    path_key: &[u8],
    adapter_kind: AdapterKind,
    name: String,
    report: &ValidationReport,
    origin: &'static str,
    enabled: bool,
    platform: PlatformKind,
) -> (r: DiscoveredInstallation)
    ensures
        install_view(r) == (InstallView {
            id: location_id_spec(path_key@),
            name: name@,
            kind_label: adapter_label(adapter_kind),
            adapter_kind,
            path: path@,
            instances: instances_of(report.kind, report.instance_count),
            confidence: confidence_from_score(report.score),
            validation_score: report.score,
            enabled,
            platform,
            origin: origin@,
        }),
{
    let instances = match report.kind {
        DirectoryKind::GameDirectory | DirectoryKind::InstanceDirectory => 1,
        DirectoryKind::LauncherRoot => report.instance_count,
        DirectoryKind::Unknown => 0,
    };
    DiscoveredInstallation {
        id: stable_location_id(path_key),
        name,
        kind_label: adapter_kind.label().to_owned(),
        adapter_kind,
        path,
        instances,
        confidence: report.confidence(),
        validation_score: report.score,
        enabled,
        platform,
        origin,
    }
}

/// A location the user saved earlier, as the archive keeps it.
pub struct SavedLocation {
    pub id: String,
    pub path_key: Vec<u8>,
    pub path_display: String,
    pub enabled: bool,
    pub validation_score: u8,
}

/// A saved location that an adapter also found: the saved id, switch and
/// score win, and the confidence follows the saved score.
pub open spec fn adopted(i: InstallView, saved: SavedLocation) -> InstallView {
    InstallView {
        id: saved.id@,
        enabled: saved.enabled,
        validation_score: saved.validation_score,
        confidence: confidence_from_score(saved.validation_score),
        ..i
    }
}

/// A saved location no adapter found: a custom location, available when its
/// directory still validates as supported.
pub open spec fn saved_view(
    saved: SavedLocation,
    path: Seq<char>,
    report: Option<(DirectoryKind, nat, u8, usize)>,
    platform: PlatformKind,
) -> InstallView {
    let supported = match report {
        Some((kind, markers, score, _)) => report_supported(kind, markers, score),
        None => false,
    };
    InstallView {
        id: saved.id@,
        name: folder_name_spec(path),
        kind_label: if supported { adapter_label(AdapterKind::Manual) } else { "Unavailable"@ },
        adapter_kind: AdapterKind::Manual,
        path,
        instances: if supported {
            let count = report.unwrap().3;
            if count < 1 { 1 } else { count }
        } else {
            0
        },
        confidence: if supported { confidence_from_score(report.unwrap().2) } else { Confidence::Unknown },
        validation_score: saved.validation_score,
        enabled: saved.enabled && supported,
        platform,
        origin: "custom"@,
    }
}

pub open spec fn report_summary(r: Option<&ValidationReport>) -> Option<(DirectoryKind, nat, u8, usize)> {
    match r {
        Some(v) => Some((v.kind, v.markers@.len(), v.score, v.instance_count)),
        None => None,
    }
}

/// The installation a saved location gives when no adapter found it; the
/// report is what validating its directory gave, if that succeeded.
pub fn saved_installation(
    saved: &SavedLocation,
    path: String,
    report: Option<&ValidationReport>,
    platform: PlatformKind,
) -> (r: DiscoveredInstallation)
    ensures
        install_view(r) == saved_view(*saved, path@, report_summary(report), platform),
{
    let supported = match report {
        Some(v) => v.is_supported(),
        None => false,
    };
    let (instances, confidence) = if supported {
        let v = report.unwrap();
        (if v.instance_count < 1 { 1 } else { v.instance_count }, v.confidence())
    } else {
        (0, Confidence::Unknown)
    };
    proof {
        reveal_strlit("Unavailable");
        reveal_strlit("custom");
    }
    let name = folder_name(path.as_str());
    DiscoveredInstallation {
        id: saved.id.clone(),
        name,
        kind_label: if supported {
            AdapterKind::Manual.label().to_owned()
        } else {
            "Unavailable".to_owned()
        },
        adapter_kind: AdapterKind::Manual,
        path,
        instances,
        confidence,
        validation_score: saved.validation_score,
        enabled: saved.enabled && supported,
        platform,
        origin: "custom",
    }
}

// ---------------------------------------------------------------------------
// The installations by native path key

pub open spec fn entry_views(m: Seq<(Vec<u8>, DiscoveredInstallation)>) -> Seq<(Seq<u8>, InstallView)> {
    m.map_values(|e: (Vec<u8>, DiscoveredInstallation)| (e.0@, install_view(e.1)))
}

/// `v` stored under `k`: replacing the entry of that key, or inserted in key order.
pub open spec fn put(s: Seq<(Seq<u8>, InstallView)>, k: Seq<u8>, v: InstallView) -> Seq<(Seq<u8>, InstallView)>
    decreases s.len(),
{
    if s.len() == 0 {
        seq![(k, v)]
    } else if s.last().0 == k {
        s.drop_last().push((k, v))
    } else if bytes_lt(k, s.last().0) {
        put(s.drop_last(), k, v).push(s.last())
    } else {
        s.push((k, v))
    }
}

/// The position of key `k`, if present.
pub open spec fn key_position(s: Seq<(Seq<u8>, InstallView)>, k: Seq<u8>) -> Option<int>
    decreases s.len(),
{
    if s.len() == 0 {
        None
    } else if s.last().0 == k {
        Some(s.len() - 1)
    } else {
        key_position(s.drop_last(), k)
    }
}

/// One saved location merged in: it adopts an installation found at its
/// key, or is added as a custom location.
pub open spec fn merge_saved(s: Seq<(Seq<u8>, InstallView)>, saved: SavedLocation, unseen: InstallView) -> Seq<
    (Seq<u8>, InstallView),
> {
    match key_position(s, saved.path_key@) {
        Some(i) => s.update(i, (s[i].0, adopted(s[i].1, saved))),
        None => put(s, saved.path_key@, unseen),
    }
}

proof fn lemma_key_position(s: Seq<(Seq<u8>, InstallView)>, k: Seq<u8>)
    ensures
        key_position(s, k) matches Some(i) ==> 0 <= i < s.len() && s[i].0 == k,
        key_position(s, k) is None ==> forall|j: int| 0 <= j < s.len() ==> s[j].0 != k,
    decreases s.len(),
{
    if s.len() > 0 {
        lemma_key_position(s.drop_last(), k);
        if key_position(s, k) is None {
            assert forall|j: int| 0 <= j < s.len() implies s[j].0 != k by {
                if j < s.len() - 1 {
                    assert(s.drop_last()[j] == s[j]);
                }
            }
        }
    }
}

/// The installations found so far, by native path key.
pub struct DiscoveredSet {
    pub entries: Vec<(Vec<u8>, DiscoveredInstallation)>,
}

impl DiscoveredSet {
    pub fn new() -> (r: DiscoveredSet)
        ensures
            entry_views(r.entries@) == Seq::<(Seq<u8>, InstallView)>::empty(),
    {
        let r = DiscoveredSet { entries: Vec::new() };
        assert(entry_views(r.entries@) =~= Seq::<(Seq<u8>, InstallView)>::empty());
        r
    }

    /// The position of `key`, searching from the last entry.
    pub fn find(&self, key: &[u8]) -> (r: Option<usize>)
        ensures
            match r {
                Some(i) => key_position(entry_views(self.entries@), key@) == Some(i as int),
                None => key_position(entry_views(self.entries@), key@) is None,
            },
    {
        let ghost s = entry_views(self.entries@);
        let mut i: usize = self.entries.len();
        assert(s.take(i as int) =~= s);
        while i > 0
            invariant
                i <= self.entries@.len(),
                s == entry_views(self.entries@),
                key_position(s, key@) == key_position(s.take(i as int), key@),
            decreases i,
        {
            proof {
                let t = s.take(i as int);
                assert(t.drop_last() =~= s.take(i - 1));
                assert(t.last() == s[i - 1]);
                assert(s[i - 1].0 == self.entries@[i - 1].0@);
            }
            if bytes_equal(self.entries[i - 1].0.as_slice(), key) {
                return Some(i - 1);
            }
            i -= 1;
        }
        None
    }

    /// Stores an installation under its key.
    pub fn insert(&mut self, key: Vec<u8>, installation: DiscoveredInstallation)
        ensures
            entry_views(final(self).entries@) == put(entry_views(old(self).entries@), key@, install_view(installation)),
    {
        let ghost s = entry_views(self.entries@);
        let ghost v = install_view(installation);
        let ghost k = key@;
        let mut pos: usize = self.entries.len();
        assert(s.take(pos as int) =~= s);
        assert(s.skip(pos as int) =~= Seq::<(Seq<u8>, InstallView)>::empty());
        assert(put(s, k, v) =~= put(s.take(pos as int), k, v) + s.skip(pos as int));
        while pos > 0 && bytes_less(key.as_slice(), self.entries[pos - 1].0.as_slice())
            invariant
                pos <= self.entries@.len(),
                s == entry_views(self.entries@),
                k == key@,
                v == install_view(installation),
                put(s, k, v) == put(s.take(pos as int), k, v) + s.skip(pos as int),
                forall|j: int| pos <= j < s.len() ==> s[j].0 != k,
            decreases pos,
        {
            proof {
                assert(s[pos - 1].0 == self.entries@[pos - 1].0@);
                let t = s.take(pos as int);
                assert(t.drop_last() =~= s.take(pos - 1));
                assert(t.last() == s[pos - 1]);
                lemma_bytes_lt_ne(k, s[pos - 1].0);
                assert(s.skip(pos - 1) =~= seq![s[pos - 1]] + s.skip(pos as int));
                assert(put(s.take(pos - 1), k, v).push(s[pos - 1]) + s.skip(pos as int) =~= put(
                    s.take(pos - 1),
                    k,
                    v,
                ) + s.skip(pos - 1));
            }
            pos -= 1;
        }
        if pos > 0 && bytes_equal(self.entries[pos - 1].0.as_slice(), key.as_slice()) {
            proof {
                assert(s[pos - 1].0 == self.entries@[pos - 1].0@);
                let t = s.take(pos as int);
                assert(t.last() == s[pos - 1]);
                assert(t.drop_last() =~= s.take(pos - 1));
                assert(put(t, k, v) == s.take(pos - 1).push((k, v)));
                assert(s.take(pos - 1).push((k, v)) + s.skip(pos as int) =~= s.update(pos - 1, (k, v)));
            }
            self.entries.set(pos - 1, (key, installation));
            assert(entry_views(self.entries@) =~= s.update(pos - 1, (k, v)));
        } else {
            proof {
                if pos > 0 {
                    assert(s[pos - 1].0 == self.entries@[pos - 1].0@);
                    let t = s.take(pos as int);
                    assert(t.last() == s[pos - 1]);
                    assert(put(t, k, v) == t.push((k, v)));
                } else {
                    assert(s.take(0) =~= Seq::<(Seq<u8>, InstallView)>::empty());
                }
                assert(put(s, k, v) =~= s.take(pos as int) + seq![(k, v)] + s.skip(pos as int));
            }
            self.entries.insert(pos, (key, installation));
            assert(entry_views(self.entries@) =~= s.take(pos as int) + seq![(k, v)] + s.skip(pos as int));
        }
    }

    /// Merges a saved location: `unseen` is the installation it gives when no
    /// adapter found its key.
    pub fn merge_saved(&mut self, saved: &SavedLocation, unseen: DiscoveredInstallation)
        ensures
            entry_views(final(self).entries@) == merge_saved(entry_views(old(self).entries@), *saved, install_view(unseen)),
    {
        let ghost s = entry_views(self.entries@);
        match self.find(saved.path_key.as_slice()) {
            Some(i) => {
                proof {
                    lemma_key_position(s, saved.path_key@);
                }
                let (key, mut found) = self.entries.remove(i);
                found.id = saved.id.clone();
                found.enabled = saved.enabled;
                found.validation_score = saved.validation_score;
                found.confidence = Confidence::from_score(saved.validation_score);
                let ghost fv = install_view(found);
                let ghost kv = key@;
                self.entries.insert(i, (key, found));
                assert(entry_views(self.entries@) =~= s.update(i as int, (kv, fv)));
            },
            None => {
                self.insert(saved.path_key.clone(), unseen);
            },
        }
    }

    /// The installations in key order.
    pub fn into_installations(self) -> (r: Vec<DiscoveredInstallation>)
        ensures
            r@.map_values(|i: DiscoveredInstallation| install_view(i)) == entry_views(self.entries@).map_values(
                |e: (Seq<u8>, InstallView)| e.1,
            ),
    {
        let ghost target = entry_views(self.entries@).map_values(|e: (Seq<u8>, InstallView)| e.1);
        let mut entries = self.entries;
        let ghost all = entries@;
        let mut out: Vec<DiscoveredInstallation> = Vec::new();
        let mut n: usize = 0;
        let count = entries.len();
        assert(all.len() == count);
        assert(entries@ =~= all.skip(0));
        while entries.len() > 0
            invariant
                n <= all.len(),
                all.len() <= usize::MAX,
                entries@ == all.skip(n as int),
                target == entry_views(all).map_values(|e: (Seq<u8>, InstallView)| e.1),
                out@.map_values(|i: DiscoveredInstallation| install_view(i)) == target.take(n as int),
            decreases entries@.len(),
        {
            assert(all.skip(n as int)[0] == all[n as int]);
            let ghost before = entries@;
            let (_, inst) = entries.remove(0);
            assert(entries@ =~= all.skip(n + 1));
            let ghost outs = out@.map_values(|i: DiscoveredInstallation| install_view(i));
            let ghost iv = install_view(inst);
            out.push(inst);
            assert(out@.map_values(|i: DiscoveredInstallation| install_view(i)) =~= outs.push(iv));
            assert(target[n as int] == iv);
            assert(target.take(n + 1) =~= target.take(n as int).push(target[n as int]));
            n += 1;
        }
        assert(target.take(n as int) =~= target);
        out
    }
}

proof fn lemma_bytes_lt_ne(a: Seq<u8>, b: Seq<u8>)
    requires
        bytes_lt(a, b),
    ensures
        a != b,
    decreases a.len(),
{
    if a.len() > 0 && b.len() > 0 && a[0] == b[0] {
        if a == b {
            assert(a.drop_first() == b.drop_first());
        }
        lemma_bytes_lt_ne(a.drop_first(), b.drop_first());
    }
}

proof fn lemma_bytes_lt_transitive(a: Seq<u8>, b: Seq<u8>, c: Seq<u8>)
    requires
        bytes_lt(a, b),
        bytes_lt(b, c),
    ensures
        bytes_lt(a, c),
    decreases a.len(),
{
    if a.len() > 0 && b.len() > 0 && c.len() > 0 && a[0] == b[0] && b[0] == c[0] {
        lemma_bytes_lt_transitive(a.drop_first(), b.drop_first(), c.drop_first());
    }
}

proof fn lemma_bytes_lt_total(a: Seq<u8>, b: Seq<u8>)
    ensures
        a == b || bytes_lt(a, b) || bytes_lt(b, a),
    decreases a.len(),
{
    if a.len() > 0 && b.len() > 0 && a[0] == b[0] {
        lemma_bytes_lt_total(a.drop_first(), b.drop_first());
        if a.drop_first() == b.drop_first() {
            assert(a =~= seq![a[0]] + a.drop_first());
            assert(b =~= seq![b[0]] + b.drop_first());
        }
    } else if a.len() == 0 && b.len() == 0 {
        assert(a =~= b);
    }
}

/// Entries in strictly increasing key order: each key once.
pub open spec fn keys_sorted(s: Seq<(Seq<u8>, InstallView)>) -> bool {
    forall|i: int, j: int| 0 <= i < j < s.len() ==> bytes_lt(s[i].0, s[j].0)
}

proof fn lemma_put_keys(s: Seq<(Seq<u8>, InstallView)>, k: Seq<u8>, v: InstallView)
    ensures
        forall|i: int|
            0 <= i < put(s, k, v).len() ==> #[trigger] put(s, k, v)[i].0 == k || exists|j: int|
                0 <= j < s.len() && s[j].0 == put(s, k, v)[i].0,
    decreases s.len(),
{
    if s.len() > 0 && s.last().0 != k && bytes_lt(k, s.last().0) {
        lemma_put_keys(s.drop_last(), k, v);
        let p = put(s.drop_last(), k, v);
        assert forall|i: int| 0 <= i < put(s, k, v).len() implies #[trigger] put(s, k, v)[i].0 == k || exists|j: int|
            0 <= j < s.len() && s[j].0 == put(s, k, v)[i].0 by {
            if i < p.len() {
                if p[i].0 != k {
                    let j = choose|j: int| 0 <= j < s.drop_last().len() && s.drop_last()[j].0 == p[i].0;
                    assert(s[j].0 == put(s, k, v)[i].0);
                }
            } else {
                assert(s[s.len() - 1].0 == put(s, k, v)[i].0);
            }
        }
    } else if s.len() > 0 {
        assert forall|i: int| 0 <= i < put(s, k, v).len() implies #[trigger] put(s, k, v)[i].0 == k || exists|j: int|
            0 <= j < s.len() && s[j].0 == put(s, k, v)[i].0 by {
            if i < s.len() - 1 || (i < s.len() && s.last().0 != k) {
                assert(s[i].0 == put(s, k, v)[i].0);
            }
        }
    }
}

/// Storing an installation keeps one entry per key, in key order, and the
/// stored installation is found under its key.
pub proof fn law_put_keeps_one_entry_per_key(s: Seq<(Seq<u8>, InstallView)>, k: Seq<u8>, v: InstallView)
    requires
        keys_sorted(s),
    ensures
        keys_sorted(put(s, k, v)),
        key_position(put(s, k, v), k) matches Some(i) && put(s, k, v)[i].1 == v,
    decreases s.len(),
{
    let r = put(s, k, v);
    if s.len() == 0 {
        assert(r =~= seq![(k, v)]);
    } else if s.last().0 == k {
        assert forall|i: int, j: int| 0 <= i < j < r.len() implies bytes_lt(r[i].0, r[j].0) by {
            assert(r[i].0 == s[i].0);
            assert(r[j].0 == s[j].0);
        }
    } else if bytes_lt(k, s.last().0) {
        let d = s.drop_last();
        assert forall|i: int, j: int| 0 <= i < j < d.len() implies bytes_lt(d[i].0, d[j].0) by {
            assert(d[i] == s[i] && d[j] == s[j]);
        }
        law_put_keeps_one_entry_per_key(d, k, v);
        lemma_put_keys(d, k, v);
        let p = put(d, k, v);
        assert forall|i: int, j: int| 0 <= i < j < r.len() implies bytes_lt(r[i].0, r[j].0) by {
            if j == r.len() - 1 {
                assert(r[j] == s.last());
                assert(r[i] == p[i]);
                if p[i].0 != k {
                    let m = choose|m: int| 0 <= m < d.len() && d[m].0 == p[i].0;
                    assert(s[m].0 == p[i].0);
                    assert(bytes_lt(s[m].0, s[s.len() - 1].0));
                }
            } else {
                assert(r[i] == p[i] && r[j] == p[j]);
            }
        }
        lemma_key_position(p, k);
        let pos = key_position(p, k).unwrap();
        assert(r.drop_last() =~= p);
        assert(r[pos] == p[pos]);
        lemma_bytes_lt_ne(k, s.last().0);
        assert(key_position(r, k) == key_position(p, k));
    } else {
        lemma_bytes_lt_total(k, s.last().0);
        assert forall|i: int, j: int| 0 <= i < j < r.len() implies bytes_lt(r[i].0, r[j].0) by {
            if j == r.len() - 1 {
                if i < s.len() - 1 {
                    lemma_bytes_lt_transitive(s[i].0, s.last().0, k);
                }
            }
        }
    }
}

/// Merging a saved location keeps one entry per key: a found installation
/// is adopted in place, an unseen one is stored under the saved key.
pub proof fn law_merge_saved_keeps_one_entry_per_key(
    s: Seq<(Seq<u8>, InstallView)>,
    saved: SavedLocation,
    unseen: InstallView,
)
    requires
        keys_sorted(s),
    ensures
        keys_sorted(merge_saved(s, saved, unseen)),
        key_position(merge_saved(s, saved, unseen), saved.path_key@) is Some,
{
    lemma_key_position(s, saved.path_key@);
    match key_position(s, saved.path_key@) {
        Some(i) => {
            let r = merge_saved(s, saved, unseen);
            assert forall|a: int, b: int| 0 <= a < b < r.len() implies bytes_lt(r[a].0, r[b].0) by {
                assert(r[a].0 == s[a].0 && r[b].0 == s[b].0);
            }
            lemma_key_position_found(r, saved.path_key@, i);
        },
        None => {
            law_put_keeps_one_entry_per_key(s, saved.path_key@, unseen);
        },
    }
}

proof fn lemma_key_position_found(s: Seq<(Seq<u8>, InstallView)>, k: Seq<u8>, i: int)
    requires
        0 <= i < s.len(),
        s[i].0 == k,
    ensures
        key_position(s, k) is Some,
    decreases s.len(),
{
    if s.last().0 != k {
        assert(s.drop_last()[i] == s[i]);
        lemma_key_position_found(s.drop_last(), k, i);
    }
}

// ---------------------------------------------------------------------------
// Adding a custom location

pub open spec fn joined_markers(ms: Seq<Seq<char>>) -> Seq<char>
    decreases ms.len(),
{
    if ms.len() == 0 {
        Seq::empty()
    } else if ms.len() == 1 {
        ms[0]
    } else {
        joined_markers(ms.drop_last()) + ", "@ + ms.last()
    }
}

pub open spec fn marker_texts(ms: Seq<&'static str>) -> Seq<Seq<char>> {
    ms.map_values(|m: &'static str| m@)
}

/// Why a selected directory was refused.
pub open spec fn refusal_reason(markers: Seq<Seq<char>>) -> Seq<char> {
    if markers.len() == 0 {
        "No recognized Minecraft directory markers were found."@
    } else {
        "Only these markers were found: "@ + joined_markers(markers) + "."@
    }
}

pub fn unsupported_location_reason(report: &ValidationReport) -> (r: String)
    ensures
        r@ == refusal_reason(marker_texts(report.markers@)),
{
    let ghost ms = marker_texts(report.markers@);
    proof {
        reveal_strlit("No recognized Minecraft directory markers were found.");
        reveal_strlit("Only these markers were found: ");
        reveal_strlit(", ");
        reveal_strlit(".");
    }
    if report.markers.len() == 0 {
        return "No recognized Minecraft directory markers were found.".to_owned();
    }
    let mut out = chars_of("Only these markers were found: ");
    let ghost head = out@;
    let mut i: usize = 0;
    assert(ms.take(0) =~= Seq::<Seq<char>>::empty());
    while i < report.markers.len()
        invariant
            i <= report.markers@.len(),
            ms == marker_texts(report.markers@),
            head == "Only these markers were found: "@,
            ", "@.len() == 2,
            out@ == head + joined_markers(ms.take(i as int)),
        decreases report.markers@.len() - i,
    {
        assert(ms.take(i + 1).drop_last() =~= ms.take(i as int));
        assert(ms.take(i + 1).last() == report.markers@[i as int]@);
        let ghost before = out@;
        if i > 0 {
            let sep = chars_of(", ");
            append_chars(&mut out, sep.as_slice());
        }
        let m = chars_of(report.markers[i]);
        append_chars(&mut out, m.as_slice());
        proof {
            if i == 0 {
                assert(ms.take(1) =~= seq![ms[0]]);
                assert(joined_markers(ms.take(0)) =~= Seq::<char>::empty());
            }
        }
        assert(out@ =~= head + joined_markers(ms.take(i + 1)));
        i += 1;
    }
    assert(ms.take(report.markers@.len() as int) =~= ms);
    out.push('.');
    string_from_chars(out.as_slice())
}

} // verus!
