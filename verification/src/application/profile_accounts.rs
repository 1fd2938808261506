//! Local account identities: reading them out of launcher account files,
//! merging the same account seen by several launchers, ordering them, and
//! choosing which skin textures to look up.

use vstd::prelude::*;

use crate::application::profile_service::{
    normalize_uuid, normalize_uuid_spec, texture_hash, texture_hash_spec, SkinAsset,
};
use crate::external::{str_to_lowercase, unicode_lower_text};
use crate::parser::minecraft_log::opt_view;
use crate::parser::session_reconstruction::{lex_lt, string_lt};
use crate::text::{chars_of, string_from_chars, trim_chars, trim_by, trim_ws, TrimSet};

verus! {

/// An account profile as a launcher account file stores it: its `name` and
/// `id` where they are strings, and the `url` of each of its `skins`.
pub struct StoredProfile {
    pub name: Option<String>,
    pub id: Option<String>,
    pub skin_urls: Vec<Option<String>>,
}

/// One entry of an account file's `accounts`.
pub struct StoredAccount {
    /// Its `active` flag, where it is a boolean.
    pub active: Option<bool>,
    /// Its `minecraftProfile`.
    pub minecraft_profile: Option<StoredProfile>,
    /// Its `profile`.
    pub profile: Option<StoredProfile>,
}

/// A launcher account file: the official launcher keys its accounts by a
/// local id and names the active one; other launchers list them with a flag.
pub struct AccountFile {
    pub active_local_id: Option<String>,
    pub keyed_accounts: Vec<(String, StoredAccount)>,
    pub listed_accounts: Vec<StoredAccount>,
}

/// An account found on this computer.
pub struct AccountIdentity {
    pub name: String,
    pub uuid: Option<String>,
    pub source: String,
    pub active: bool,
    pub skin_hashes: Vec<String>,
}

pub struct IdentityView {
    pub name: Seq<char>,
    pub uuid: Option<Seq<char>>,
    pub source: Seq<char>,
    pub active: bool,
    pub skin_hashes: Seq<Seq<char>>,
}

pub open spec fn texts(v: Seq<String>) -> Seq<Seq<char>> {
    v.map_values(|s: String| s@)
}

impl View for AccountIdentity {
    type V = IdentityView;

    open spec fn view(&self) -> IdentityView {
        IdentityView {
            name: self.name@,
            uuid: opt_view(self.uuid),
            source: self.source@,
            active: self.active,
            skin_hashes: texts(self.skin_hashes@),
        }
    }
}

pub open spec fn identity_views(v: Seq<AccountIdentity>) -> Seq<IdentityView> {
    v.map_values(|i: AccountIdentity| i@)
}

pub open spec fn opt_texts(v: Seq<Option<String>>) -> Seq<Option<Seq<char>>> {
    v.map_values(|o: Option<String>| opt_view(o))
}

/// `h` appended to `hashes` unless it is already there.
pub open spec fn add_hash(hashes: Seq<Seq<char>>, h: Seq<char>) -> Seq<Seq<char>> {
    if hashes.contains(h) { hashes } else { hashes.push(h) }
}

/// The texture hashes of a profile's skin URLs, first occurrence first.
pub open spec fn skin_hashes_spec(urls: Seq<Option<Seq<char>>>) -> Seq<Seq<char>>
    decreases urls.len(),
{
    if urls.len() == 0 {
        Seq::empty()
    } else {
        let before = skin_hashes_spec(urls.drop_last());
        match urls.last() {
            Some(u) => match texture_hash_spec(u) {
                Some(h) => add_hash(before, h),
                None => before,
            },
            None => before,
        }
    }
}

/// The identity a profile gives: none without a non-blank name.
pub open spec fn identity_spec(
    name: Option<Seq<char>>,
    id: Option<Seq<char>>,
    urls: Seq<Option<Seq<char>>>,
    source: Seq<char>,
    active: bool,
) -> Option<IdentityView> {
    match name {
        None => None,
        Some(n) => if trim_ws(n).len() == 0 {
            None
        } else {
            Some(
                IdentityView {
                    name: trim_ws(n),
                    uuid: match id {
                        Some(i) => normalize_uuid_spec(i),
                        None => None,
                    },
                    source,
                    active,
                    skin_hashes: skin_hashes_spec(urls),
                },
            )
        },
    }
}

pub open spec fn profile_identity(p: StoredProfile, source: Seq<char>, active: bool) -> Option<IdentityView> {
    identity_spec(opt_view(p.name), opt_view(p.id), opt_texts(p.skin_urls@), source, active)
}

fn contains_string(v: &Vec<String>, s: &String) -> (r: bool)
    ensures
        r == texts(v@).contains(s@),
{
    let mut i: usize = 0;
    while i < v.len()
        invariant
            i <= v@.len(),
            forall|k: int| 0 <= k < i ==> v@[k]@ != s@,
        decreases v@.len() - i,
    {
        if v[i].eq(s) {
            assert(texts(v@)[i as int] == s@);
            return true;
        }
        i += 1;
    }
    proof {
        if texts(v@).contains(s@) {
            let k = choose|k: int| 0 <= k < texts(v@).len() && texts(v@)[k] == s@;
            assert(v@[k]@ == s@);
        }
    }
    false
}

fn push_new_hash(hashes: &mut Vec<String>, h: String)
    ensures
        texts(final(hashes)@) == add_hash(texts(old(hashes)@), h@),
{
    if !contains_string(hashes, &h) {
        let ghost before = texts(hashes@);
        hashes.push(h);
        assert(texts(hashes@) =~= before.push(h@));
    }
}

/// Reads the identity out of one stored profile.
pub fn identity_from_profile(profile: &StoredProfile, source: &str, active: bool) -> (r: Option<AccountIdentity>)
    ensures
        match r {
            Some(i) => profile_identity(*profile, source@, active) == Some(i@),
            None => profile_identity(*profile, source@, active) is None,
        },
{
    let name = match &profile.name {
        Some(n) => n,
        None => return None,
    };
    let c = chars_of(name.as_str());
    let t = trim_chars(c.as_slice(), TrimSet::Whitespace);
    proof {
        assert(trim_by(name@, TrimSet::Whitespace) == trim_ws(name@));
    }
    if t.len() == 0 {
        return None;
    }
    let uuid = match &profile.id {
        Some(i) => normalize_uuid(i.as_str()),
        None => None,
    };
    let ghost urls = opt_texts(profile.skin_urls@);
    let mut hashes: Vec<String> = Vec::new();
    let mut k: usize = 0;
    assert(urls.take(0) =~= Seq::<Option<Seq<char>>>::empty());
    while k < profile.skin_urls.len()
        invariant
            k <= profile.skin_urls@.len(),
            urls == opt_texts(profile.skin_urls@),
            texts(hashes@) == skin_hashes_spec(urls.take(k as int)),
        decreases profile.skin_urls@.len() - k,
    {
        assert(urls.take(k + 1).drop_last() =~= urls.take(k as int));
        assert(urls.take(k + 1).last() == opt_view(profile.skin_urls@[k as int]));
        match &profile.skin_urls[k] {
            Some(u) => match texture_hash(u.as_str()) {
                Some(h) => push_new_hash(&mut hashes, h),
                None => {},
            },
            None => {},
        }
        k += 1;
    }
    assert(urls.take(profile.skin_urls@.len() as int) =~= urls);
    Some(
        AccountIdentity {
            name: string_from_chars(t.as_slice()),
            uuid,
            source: source.to_owned(),
            active,
            skin_hashes: hashes,
        },
    )
}

/// The profile an official-launcher entry uses: `minecraftProfile`, else `profile`.
pub open spec fn keyed_profile(a: StoredAccount) -> Option<StoredProfile> {
    match a.minecraft_profile {
        Some(p) => Some(p),
        None => a.profile,
    }
}

/// The profile a listed entry uses: `profile`, else `minecraftProfile`.
pub open spec fn listed_profile(a: StoredAccount) -> Option<StoredProfile> {
    match a.profile {
        Some(p) => Some(p),
        None => a.minecraft_profile,
    }
}

pub open spec fn push_found(s: Seq<IdentityView>, found: Option<IdentityView>) -> Seq<IdentityView> {
    match found {
        Some(i) => s.push(i),
        None => s,
    }
}

pub open spec fn keyed_identities(
    accounts: Seq<(String, StoredAccount)>,
    active_id: Option<Seq<char>>,
    source: Seq<char>,
) -> Seq<IdentityView>
    decreases accounts.len(),
{
    if accounts.len() == 0 {
        Seq::empty()
    } else {
        let before = keyed_identities(accounts.drop_last(), active_id, source);
        let (local_id, account) = accounts.last();
        match keyed_profile(account) {
            Some(p) => push_found(before, profile_identity(p, source, active_id == Some(local_id@))),
            None => before,
        }
    }
}

pub open spec fn listed_identities(accounts: Seq<StoredAccount>, source: Seq<char>) -> Seq<IdentityView>
    decreases accounts.len(),
{
    if accounts.len() == 0 {
        Seq::empty()
    } else {
        let before = listed_identities(accounts.drop_last(), source);
        let account = accounts.last();
        let active = match account.active {
            Some(b) => b,
            None => false,
        };
        match listed_profile(account) {
            Some(p) => push_found(before, profile_identity(p, source, active)),
            None => before,
        }
    }
}

fn push_identity(v: &mut Vec<AccountIdentity>, found: Option<AccountIdentity>)
    ensures
        identity_views(final(v)@) == push_found(
            identity_views(old(v)@),
            match found {
                Some(i) => Some(i@),
                None => None,
            },
        ),
{
    if let Some(i) = found {
        let ghost before = identity_views(v@);
        v.push(i);
        assert(identity_views(v@) =~= before.push(i@));
    }
}

/// The identities an account file holds: first the keyed accounts, whose
/// active one is the named local id, then the listed ones, each active by
/// its own flag.
pub fn extract_identities(file: &AccountFile, source: &str) -> (r: Vec<AccountIdentity>)
    ensures
        identity_views(r@) == keyed_identities(file.keyed_accounts@, opt_view(file.active_local_id), source@)
            + listed_identities(file.listed_accounts@, source@),
{
    let ghost active_id = opt_view(file.active_local_id);
    let mut r: Vec<AccountIdentity> = Vec::new();
    let mut i: usize = 0;
    assert(file.keyed_accounts@.take(0) =~= Seq::<(String, StoredAccount)>::empty());
    assert(identity_views(r@) =~= Seq::<IdentityView>::empty());
    while i < file.keyed_accounts.len()
        invariant
            i <= file.keyed_accounts@.len(),
            active_id == opt_view(file.active_local_id),
            identity_views(r@) == keyed_identities(file.keyed_accounts@.take(i as int), active_id, source@),
        decreases file.keyed_accounts@.len() - i,
    {
        let ghost prefix = file.keyed_accounts@.take(i + 1);
        assert(prefix.drop_last() =~= file.keyed_accounts@.take(i as int));
        assert(prefix.last() == file.keyed_accounts@[i as int]);
        let (local_id, account) = (&file.keyed_accounts[i].0, &file.keyed_accounts[i].1);
        let active = match &file.active_local_id {
            Some(a) => a.eq(local_id),
            None => false,
        };
        let profile = match &account.minecraft_profile {
            Some(p) => Some(p),
            None => match &account.profile {
                Some(p) => Some(p),
                None => None,
            },
        };
        if let Some(p) = profile {
            let found = identity_from_profile(p, source, active);
            push_identity(&mut r, found);
        }
        i += 1;
    }
    assert(file.keyed_accounts@.take(file.keyed_accounts@.len() as int) =~= file.keyed_accounts@);
    let ghost keyed = identity_views(r@);
    let mut j: usize = 0;
    assert(file.listed_accounts@.take(0) =~= Seq::<StoredAccount>::empty());
    assert(keyed + Seq::<IdentityView>::empty() =~= keyed);
    while j < file.listed_accounts.len()
        invariant
            j <= file.listed_accounts@.len(),
            identity_views(r@) == keyed + listed_identities(file.listed_accounts@.take(j as int), source@),
        decreases file.listed_accounts@.len() - j,
    {
        let ghost prefix = file.listed_accounts@.take(j + 1);
        assert(prefix.drop_last() =~= file.listed_accounts@.take(j as int));
        assert(prefix.last() == file.listed_accounts@[j as int]);
        let ghost listed_before = listed_identities(file.listed_accounts@.take(j as int), source@);
        let account = &file.listed_accounts[j];
        let active = match account.active {
            Some(b) => b,
            None => false,
        };
        let profile = match &account.profile {
            Some(p) => Some(p),
            None => match &account.minecraft_profile {
                Some(p) => Some(p),
                None => None,
            },
        };
        if let Some(p) = profile {
            let found = identity_from_profile(p, source, active);
            let ghost found_view = match &found {
                Some(x) => Some(x@),
                None => None::<IdentityView>,
            };
            push_identity(&mut r, found);
            assert(push_found(keyed + listed_before, found_view) =~= keyed + push_found(
                listed_before,
                found_view,
            ));
        }
        j += 1;
    }
    assert(file.listed_accounts@.take(file.listed_accounts@.len() as int) =~= file.listed_accounts@);
    r
}

/// The key under which the same account is recognised across launchers:
/// its UUID, or its lowercased name when it has none.
pub open spec fn identity_key(i: IdentityView) -> Seq<char> {
    match i.uuid {
        Some(u) => u,
        None => unicode_lower_text(i.name),
    }
}

/// `b`'s hashes appended to `a`, each unless it is already there.
pub open spec fn merged_hashes(a: Seq<Seq<char>>, b: Seq<Seq<char>>) -> Seq<Seq<char>>
    decreases b.len(),
{
    if b.len() == 0 {
        a
    } else {
        add_hash(merged_hashes(a, b.drop_last()), b.last())
    }
}

/// The first position of `key` among the identities' keys.
pub open spec fn key_index(s: Seq<IdentityView>, key: Seq<char>) -> Option<int>
    decreases s.len(),
{
    if s.len() == 0 {
        None
    } else {
        match key_index(s.drop_last(), key) {
            Some(k) => Some(k),
            None => if identity_key(s.last()) == key {
                Some(s.len() - 1)
            } else {
                None
            },
        }
    }
}

/// One more identity merged in: an account already seen becomes active if
/// either sighting is, and gains the new skin hashes.
pub open spec fn merge_one(s: Seq<IdentityView>, x: IdentityView) -> Seq<IdentityView> {
    match key_index(s, identity_key(x)) {
        Some(k) => s.update(
            k,
            IdentityView {
                active: s[k].active || x.active,
                skin_hashes: merged_hashes(s[k].skin_hashes, x.skin_hashes),
                ..s[k]
            },
        ),
        None => s.push(x),
    }
}

pub open spec fn merge_all(xs: Seq<IdentityView>) -> Seq<IdentityView>
    decreases xs.len(),
{
    if xs.len() == 0 {
        Seq::empty()
    } else {
        merge_one(merge_all(xs.drop_last()), xs.last())
    }
}

/// Listing order: active accounts first, then by lowercased name, then by key.
pub open spec fn identity_before(a: IdentityView, b: IdentityView) -> bool {
    ||| a.active && !b.active
    ||| a.active == b.active && lex_lt(unicode_lower_text(a.name), unicode_lower_text(b.name))
    ||| a.active == b.active && unicode_lower_text(a.name) == unicode_lower_text(b.name) && lex_lt(
        identity_key(a),
        identity_key(b),
    )
}

pub open spec fn insert_identity(s: Seq<IdentityView>, x: IdentityView) -> Seq<IdentityView>
    decreases s.len(),
{
    if s.len() == 0 {
        seq![x]
    } else if identity_before(x, s.last()) {
        insert_identity(s.drop_last(), x).push(s.last())
    } else {
        s.push(x)
    }
}

pub open spec fn sort_identities(s: Seq<IdentityView>) -> Seq<IdentityView>
    decreases s.len(),
{
    if s.len() == 0 {
        Seq::empty()
    } else {
        insert_identity(sort_identities(s.drop_last()), s.last())
    }
}

fn key_of(i: &AccountIdentity) -> (r: String)
    ensures
        r@ == identity_key(i@),
{
    match &i.uuid {
        Some(u) => u.clone(),
        None => str_to_lowercase(i.name.as_str()),
    }
}

fn clone_texts(v: &Vec<String>) -> (r: Vec<String>)
    ensures
        texts(r@) == texts(v@),
{
    let mut r: Vec<String> = Vec::new();
    let mut i: usize = 0;
    while i < v.len()
        invariant
            i <= v@.len(),
            texts(r@) == texts(v@).take(i as int),
        decreases v@.len() - i,
    {
        let c = v[i].clone();
        let ghost before = texts(r@);
        r.push(c);
        assert(texts(v@).take(i + 1) =~= texts(v@).take(i as int).push(v@[i as int]@));
        assert(texts(r@) =~= before.push(c@));
        i += 1;
    }
    assert(texts(v@).take(v@.len() as int) =~= texts(v@));
    r
}

fn find_key(keys: &Vec<String>, key: &String, Ghost(s): Ghost<Seq<IdentityView>>) -> (r: Option<usize>)
    requires
        texts(keys@) == s.map_values(|i: IdentityView| identity_key(i)),
    ensures
        match r {
            Some(k) => key_index(s, key@) == Some(k as int),
            None => key_index(s, key@) is None,
        },
{
    assert(texts(keys@).len() == keys@.len());
    assert(s.map_values(|i: IdentityView| identity_key(i)).len() == s.len());
    assert(s.take(0) =~= Seq::<IdentityView>::empty());
    let mut i: usize = 0;
    while i < keys.len()
        invariant
            i <= keys@.len(),
            keys@.len() == s.len(),
            texts(keys@) == s.map_values(|i: IdentityView| identity_key(i)),
            key_index(s.take(i as int), key@) is None,
        decreases keys@.len() - i,
    {
        assert(s.take(i + 1).drop_last() =~= s.take(i as int));
        assert(texts(keys@)[i as int] == keys@[i as int]@);
        assert(s.map_values(|i: IdentityView| identity_key(i))[i as int] == identity_key(s[i as int]));
        assert(identity_key(s[i as int]) == keys@[i as int]@);
        assert(s.take(i + 1).last() == s[i as int]);
        if keys[i].eq(key) {
            proof {
                lemma_key_index_prefix(s, key@, i as int + 1);
            }
            return Some(i);
        }
        i += 1;
    }
    assert(s.take(s.len() as int) =~= s);
    None
}

proof fn lemma_key_index_prefix(s: Seq<IdentityView>, key: Seq<char>, n: int)
    requires
        0 < n <= s.len(),
        key_index(s.take(n), key) is Some,
    ensures
        key_index(s, key) == key_index(s.take(n), key),
    decreases s.len() - n,
{
    if n < s.len() {
        assert(s.take(n + 1).drop_last() =~= s.take(n));
        lemma_key_index_prefix(s, key, n + 1);
    } else {
        assert(s.take(n) =~= s);
    }
}

proof fn lemma_views_drop_first(v: Seq<AccountIdentity>)
    requires
        v.len() > 0,
    ensures
        identity_views(v.drop_first()) == identity_views(v).drop_first(),
{
    assert(identity_views(v.drop_first()) =~= identity_views(v).drop_first());
}

proof fn lemma_key_index_bound(s: Seq<IdentityView>, key: Seq<char>)
    ensures
        key_index(s, key) matches Some(k) ==> 0 <= k < s.len() && identity_key(s[k]) == key,
    decreases s.len(),
{
    if s.len() > 0 {
        lemma_key_index_bound(s.drop_last(), key);
    }
}

fn merge_into(merged: &mut Vec<AccountIdentity>, keys: &mut Vec<String>, x: AccountIdentity)
    requires
        texts(old(keys)@) == identity_views(old(merged)@).map_values(|i: IdentityView| identity_key(i)),
    ensures
        identity_views(final(merged)@) == merge_one(identity_views(old(merged)@), x@),
        texts(final(keys)@) == identity_views(final(merged)@).map_values(|i: IdentityView| identity_key(i)),
{
    let ghost s = identity_views(merged@);
    let key = key_of(&x);
    match find_key(keys, &key, Ghost(s)) {
        Some(k) => {
            proof {
                lemma_key_index_bound(s, key@);
            }
            assert(s.len() == merged@.len());
            let mut hashes = clone_texts(&merged[k].skin_hashes);
            let mut j: usize = 0;
            assert(x@.skin_hashes.take(0) =~= Seq::<Seq<char>>::empty());
            while j < x.skin_hashes.len()
                invariant
                    j <= x.skin_hashes@.len(),
                    k < merged@.len(),
                    s == identity_views(merged@),
                    texts(hashes@) == merged_hashes(s[k as int].skin_hashes, x@.skin_hashes.take(j as int)),
                decreases x.skin_hashes@.len() - j,
            {
                assert(x@.skin_hashes.take(j + 1).drop_last() =~= x@.skin_hashes.take(j as int));
                push_new_hash(&mut hashes, x.skin_hashes[j].clone());
                j += 1;
            }
            assert(x@.skin_hashes.take(x@.skin_hashes.len() as int) =~= x@.skin_hashes);
            let updated = AccountIdentity {
                name: merged[k].name.clone(),
                uuid: copy_opt(&merged[k].uuid),
                source: merged[k].source.clone(),
                active: merged[k].active || x.active,
                skin_hashes: hashes,
            };
            let ghost uv = updated@;
            merged.remove(k);
            merged.insert(k, updated);
            assert(identity_views(merged@) =~= s.update(k as int, uv));
            assert(identity_key(uv) == identity_key(s[k as int]));
            assert(identity_views(merged@).map_values(|i: IdentityView| identity_key(i)) =~= s.map_values(
                |i: IdentityView| identity_key(i),
            ));
        },
        None => {
            let ghost xv = x@;
            let ghost ks = texts(keys@);
            merged.push(x);
            keys.push(key);
            assert(identity_views(merged@) =~= s.push(xv));
            assert(texts(keys@) =~= ks.push(identity_key(xv)));
            assert(identity_views(merged@).map_values(|i: IdentityView| identity_key(i)) =~= s.map_values(
                |i: IdentityView| identity_key(i),
            ).push(identity_key(xv)));
        },
    }
}

fn copy_opt(o: &Option<String>) -> (r: Option<String>)
    ensures
        opt_view(r) == opt_view(*o),
{
    match o {
        Some(s) => Some(s.clone()),
        None => None,
    }
}

fn comes_before(x: &AccountIdentity, x_lower: &String, x_key: &String, y: &AccountIdentity, y_lower: &String, y_key: &String) -> (r: bool)
    requires
        x_lower@ == unicode_lower_text(x.name@),
        y_lower@ == unicode_lower_text(y.name@),
        x_key@ == identity_key(x@),
        y_key@ == identity_key(y@),
    ensures
        r == identity_before(x@, y@),
{
    if x.active != y.active {
        return x.active;
    }
    if string_lt(x_lower, y_lower) {
        return true;
    }
    if x_lower.eq(y_lower) {
        return string_lt(x_key, y_key);
    }
    false
}

/// Merges the identities found in all account files: one per account key,
/// in the listing order.
pub fn merge_identities(found: Vec<AccountIdentity>) -> (r: Vec<AccountIdentity>)
    ensures
        identity_views(r@) == sort_identities(merge_all(identity_views(found@))),
{
    let ghost all = identity_views(found@);
    let count = found.len();
    assert(all.len() == count);
    let mut rest = found;
    let mut merged: Vec<AccountIdentity> = Vec::new();
    let mut keys: Vec<String> = Vec::new();
    let mut n: usize = 0;
    assert(all.take(0) =~= Seq::<IdentityView>::empty());
    assert(identity_views(merged@).map_values(|i: IdentityView| identity_key(i)) =~= texts(keys@));
    assert(identity_views(rest@) =~= all.skip(0));
    while rest.len() > 0
        invariant
            n <= all.len(),
            all.len() <= usize::MAX,
            identity_views(rest@) == all.skip(n as int),
            identity_views(merged@) == merge_all(all.take(n as int)),
            texts(keys@) == identity_views(merged@).map_values(|i: IdentityView| identity_key(i)),
        decreases rest@.len(),
    {
        let ghost before = identity_views(rest@);
        assert(before.len() == rest@.len());
        assert(all.skip(n as int).len() == all.len() - n);
        assert(before[0] == rest@[0]@);
        assert(all.skip(n as int)[0] == all[n as int]);
        let ghost old_rest = rest@;
        let x = rest.remove(0);
        assert(x@ == all[n as int]);
        proof {
            lemma_views_drop_first(old_rest);
            assert(rest@ =~= old_rest.drop_first());
            assert(all.skip(n as int).drop_first() =~= all.skip(n + 1));
        }
        assert(identity_views(rest@) =~= all.skip(n + 1));
        assert(all.take(n + 1).drop_last() =~= all.take(n as int));
        merge_into(&mut merged, &mut keys, x);
        n += 1;
    }
    assert(all.take(n as int) =~= all);
    // Order the merged identities.
    let ghost m = identity_views(merged@);
    let merged_count = merged.len();
    assert(m.len() == merged_count);
    let mut sorted: Vec<AccountIdentity> = Vec::new();
    let mut lowers: Vec<String> = Vec::new();
    let mut skeys: Vec<String> = Vec::new();
    let mut done: usize = 0;
    assert(m.take(0) =~= Seq::<IdentityView>::empty());
    while merged.len() > 0
        invariant
            done <= m.len(),
            m.len() <= usize::MAX,
            identity_views(merged@) == m.skip(done as int),
            identity_views(sorted@) == sort_identities(m.take(done as int)),
            lowers@.len() == sorted@.len(),
            skeys@.len() == sorted@.len(),
            forall|k: int| 0 <= k < sorted@.len() ==> lowers@[k]@ == unicode_lower_text(#[trigger] sorted@[k].name@),
            forall|k: int| 0 <= k < sorted@.len() ==> skeys@[k]@ == identity_key(#[trigger] sorted@[k]@),
        decreases merged@.len(),
    {
        assert(identity_views(merged@).len() == merged@.len());
        assert(m.skip(done as int).len() == m.len() - done);
        assert(identity_views(merged@)[0] == merged@[0]@);
        assert(m.skip(done as int)[0] == m[done as int]);
        let ghost old_merged = merged@;
        let x = merged.remove(0);
        assert(x@ == m[done as int]);
        proof {
            lemma_views_drop_first(old_merged);
            assert(merged@ =~= old_merged.drop_first());
            assert(m.skip(done as int).drop_first() =~= m.skip(done + 1));
        }
        assert(identity_views(merged@) =~= m.skip(done + 1));
        assert(m.take(done + 1).drop_last() =~= m.take(done as int));
        let xl = str_to_lowercase(x.name.as_str());
        let xk = key_of(&x);
        let ghost s = identity_views(sorted@);
        let mut pos: usize = sorted.len();
        assert(s.take(pos as int) =~= s);
        assert(s.skip(pos as int) =~= Seq::<IdentityView>::empty());
        assert(insert_identity(s, x@) =~= insert_identity(s.take(pos as int), x@) + s.skip(pos as int));
        while pos > 0 && comes_before(&x, &xl, &xk, &sorted[pos - 1], &lowers[pos - 1], &skeys[pos - 1])
            invariant
                pos <= sorted@.len(),
                s == identity_views(sorted@),
                lowers@.len() == sorted@.len(),
                skeys@.len() == sorted@.len(),
                forall|k: int| 0 <= k < sorted@.len() ==> lowers@[k]@ == unicode_lower_text(#[trigger] sorted@[k].name@),
                forall|k: int| 0 <= k < sorted@.len() ==> skeys@[k]@ == identity_key(#[trigger] sorted@[k]@),
                xl@ == unicode_lower_text(x.name@),
                xk@ == identity_key(x@),
                insert_identity(s, x@) == insert_identity(s.take(pos as int), x@) + s.skip(pos as int),
            decreases pos,
        {
            proof {
                assert(sorted@[pos - 1]@ == s[pos - 1]);
                let t = s.take(pos as int);
                assert(t.drop_last() =~= s.take(pos - 1));
                assert(t.last() == s[pos - 1]);
                assert(s.skip(pos - 1) =~= seq![s[pos - 1]] + s.skip(pos as int));
                assert(insert_identity(s.take(pos - 1), x@).push(s[pos - 1]) + s.skip(pos as int)
                    =~= insert_identity(s.take(pos - 1), x@) + s.skip(pos - 1));
            }
            pos -= 1;
        }
        proof {
            if pos == 0 {
                assert(s.take(0) =~= Seq::<IdentityView>::empty());
                assert(insert_identity(s.take(0), x@) =~= seq![x@]);
            } else {
                assert(sorted@[pos - 1]@ == s[pos - 1]);
                assert(s.take(pos as int).last() == s[pos - 1]);
                assert(insert_identity(s.take(pos as int), x@) == s.take(pos as int).push(x@));
            }
            assert(insert_identity(s, x@) =~= s.take(pos as int) + seq![x@] + s.skip(pos as int));
        }
        let ghost xv = x@;
        sorted.insert(pos, x);
        lowers.insert(pos, xl);
        skeys.insert(pos, xk);
        assert(identity_views(sorted@) =~= s.take(pos as int) + seq![xv] + s.skip(pos as int));
        done += 1;
    }
    assert(m.take(done as int) =~= m);
    sorted
}

pub open spec fn file_identities(files: Seq<(AccountFile, String)>) -> Seq<IdentityView>
    decreases files.len(),
{
    if files.len() == 0 {
        Seq::empty()
    } else {
        let (file, source) = files.last();
        file_identities(files.drop_last()) + keyed_identities(
            file.keyed_accounts@,
            opt_view(file.active_local_id),
            source@,
        ) + listed_identities(file.listed_accounts@, source@)
    }
}

/// The accounts of all readable account files (each with the launcher it
/// belongs to), merged and ordered.
pub fn collect_identities(files: &Vec<(AccountFile, String)>) -> (r: Vec<AccountIdentity>)
    ensures
        identity_views(r@) == sort_identities(merge_all(file_identities(files@))),
{
    let mut found: Vec<AccountIdentity> = Vec::new();
    let mut i: usize = 0;
    assert(files@.take(0) =~= Seq::<(AccountFile, String)>::empty());
    assert(identity_views(found@) =~= Seq::<IdentityView>::empty());
    while i < files.len()
        invariant
            i <= files@.len(),
            identity_views(found@) == file_identities(files@.take(i as int)),
        decreases files@.len() - i,
    {
        assert(files@.take(i + 1).drop_last() =~= files@.take(i as int));
        assert(files@.take(i + 1).last() == files@[i as int]);
        let mut more = extract_identities(&files[i].0, files[i].1.as_str());
        let ghost before = identity_views(found@);
        let ghost added = identity_views(more@);
        found.append(&mut more);
        assert(identity_views(found@) =~= before + added);
        i += 1;
    }
    assert(files@.take(files@.len() as int) =~= files@);
    merge_identities(found)
}

/// The skin textures to look up: each hash once, with the launcher of the
/// first account that lists it.
pub open spec fn skin_lookups_spec(ids: Seq<IdentityView>) -> Seq<(Seq<char>, Seq<char>)>
    decreases ids.len(),
{
    if ids.len() == 0 {
        Seq::empty()
    } else {
        add_lookups(skin_lookups_spec(ids.drop_last()), ids.last().skin_hashes, ids.last().source)
    }
}

pub open spec fn add_lookups(
    s: Seq<(Seq<char>, Seq<char>)>,
    hashes: Seq<Seq<char>>,
    source: Seq<char>,
) -> Seq<(Seq<char>, Seq<char>)>
    decreases hashes.len(),
{
    if hashes.len() == 0 {
        s
    } else {
        let before = add_lookups(s, hashes.drop_last(), source);
        let h = hashes.last();
        if (exists|k: int| 0 <= k < before.len() && before[k].0 == h) {
            before
        } else {
            before.push((h, source))
        }
    }
}

pub open spec fn lookup_views(v: Seq<(String, String)>) -> Seq<(Seq<char>, Seq<char>)> {
    v.map_values(|p: (String, String)| (p.0@, p.1@))
}

fn has_hash(v: &Vec<(String, String)>, h: &String) -> (r: bool)
    ensures
        r == exists|k: int| 0 <= k < lookup_views(v@).len() && lookup_views(v@)[k].0 == h@,
{
    let mut i: usize = 0;
    while i < v.len()
        invariant
            i <= v@.len(),
            forall|k: int| 0 <= k < i ==> v@[k].0@ != h@,
        decreases v@.len() - i,
    {
        if v[i].0.eq(h) {
            assert(lookup_views(v@)[i as int].0 == h@);
            return true;
        }
        i += 1;
    }
    proof {
        assert forall|k: int| 0 <= k < lookup_views(v@).len() implies lookup_views(v@)[k].0 != h@ by {
            assert(lookup_views(v@)[k].0 == v@[k].0@);
        }
    }
    false
}

/// Lists, in account order, the skin hashes to look for in the launcher caches.
pub fn skin_lookups(identities: &Vec<AccountIdentity>) -> (r: Vec<(String, String)>)
    ensures
        lookup_views(r@) == skin_lookups_spec(identity_views(identities@)),
{
    let ghost ids = identity_views(identities@);
    let mut r: Vec<(String, String)> = Vec::new();
    let mut i: usize = 0;
    assert(ids.take(0) =~= Seq::<IdentityView>::empty());
    assert(lookup_views(r@) =~= Seq::<(Seq<char>, Seq<char>)>::empty());
    while i < identities.len()
        invariant
            i <= identities@.len(),
            ids == identity_views(identities@),
            lookup_views(r@) == skin_lookups_spec(ids.take(i as int)),
        decreases identities@.len() - i,
    {
        assert(ids.take(i + 1).drop_last() =~= ids.take(i as int));
        assert(ids.take(i + 1).last() == identities@[i as int]@);
        let ghost start = lookup_views(r@);
        let hashes = &identities[i].skin_hashes;
        let ghost hs = texts(hashes@);
        let mut j: usize = 0;
        assert(hs.take(0) =~= Seq::<Seq<char>>::empty());
        while j < hashes.len()
            invariant
                j <= hashes@.len(),
                i < identities@.len(),
                hs == texts(hashes@),
                hashes == &identities@[i as int].skin_hashes,
                lookup_views(r@) == add_lookups(start, hs.take(j as int), identities@[i as int].source@),
            decreases hashes@.len() - j,
        {
            assert(hs.take(j + 1).drop_last() =~= hs.take(j as int));
            assert(hs.take(j + 1).last() == hashes@[j as int]@);
            if !has_hash(&r, &hashes[j]) {
                let ghost before = lookup_views(r@);
                let entry = (hashes[j].clone(), identities[i].source.clone());
                r.push(entry);
                assert(lookup_views(r@) =~= before.push((hashes@[j as int]@, identities@[i as int].source@)));
            }
            j += 1;
        }
        assert(hs.take(hashes@.len() as int) =~= hs);
        i += 1;
    }
    assert(ids.take(identities@.len() as int) =~= ids);
    r
}

/// The skin shown now (the first found) and up to twelve earlier ones.
pub fn split_skins(skins: Vec<SkinAsset>) -> (r: (Option<SkinAsset>, Vec<SkinAsset>))
    ensures
        skins@.len() == 0 ==> r.0 is None && r.1@.len() == 0,
        skins@.len() > 0 ==> r.0 == Some(skins@[0]) && r.1@ == skins@.subrange(
            1,
            if skins@.len() > 13 { 13 } else { skins@.len() as int },
        ),
{
    let mut rest = skins;
    if rest.len() == 0 {
        return (None, rest);
    }
    let ghost all = rest@;
    let current = rest.remove(0);
    rest.truncate(12);
    assert(rest@ =~= all.subrange(1, if all.len() > 13 { 13 } else { all.len() as int }));
    (Some(current), rest)
}

pub open spec fn keys_distinct(m: Seq<IdentityView>) -> bool {
    forall|i: int, j: int| 0 <= i < j < m.len() ==> identity_key(m[i]) != identity_key(m[j])
}

/// `x`'s account is among `m`, and active there if `x` is.
pub open spec fn found_in(m: Seq<IdentityView>, x: IdentityView) -> bool {
    exists|i: int| 0 <= i < m.len() && identity_key(m[i]) == identity_key(x) && (x.active ==> m[i].active)
}

proof fn lemma_key_index_none(s: Seq<IdentityView>, key: Seq<char>)
    ensures
        key_index(s, key) is None ==> forall|i: int| 0 <= i < s.len() ==> identity_key(s[i]) != key,
    decreases s.len(),
{
    if s.len() > 0 {
        lemma_key_index_none(s.drop_last(), key);
        if key_index(s, key) is None {
            assert forall|i: int| 0 <= i < s.len() implies identity_key(s[i]) != key by {
                if i < s.len() - 1 {
                    assert(s.drop_last()[i] == s[i]);
                }
            }
        }
    }
}

/// Merging keeps one identity per account key; every account found is
/// among them, and an account found active anywhere is active.
pub proof fn law_each_account_once(xs: Seq<IdentityView>)
    ensures
        keys_distinct(merge_all(xs)),
        forall|k: int| 0 <= k < xs.len() ==> found_in(merge_all(xs), #[trigger] xs[k]),
    decreases xs.len(),
{
    if xs.len() > 0 {
        let prev = xs.drop_last();
        law_each_account_once(prev);
        let m0 = merge_all(prev);
        let x = xs.last();
        let m = merge_all(xs);
        assert(m == merge_one(m0, x));
        lemma_key_index_bound(m0, identity_key(x));
        lemma_key_index_none(m0, identity_key(x));
        match key_index(m0, identity_key(x)) {
            Some(p) => {
                assert(m.len() == m0.len());
                assert forall|i: int, j: int| 0 <= i < j < m.len() implies identity_key(m[i]) != identity_key(m[j]) by {
                    assert(identity_key(m[i]) == identity_key(m0[i]));
                    assert(identity_key(m[j]) == identity_key(m0[j]));
                }
                assert forall|k: int| 0 <= k < xs.len() implies found_in(m, #[trigger] xs[k]) by {
                    if k < xs.len() - 1 {
                        assert(prev[k] == xs[k]);
                        assert(found_in(m0, prev[k]));
                        let i = choose|i: int|
                            0 <= i < m0.len() && identity_key(m0[i]) == identity_key(prev[k]) && (prev[k].active
                                ==> m0[i].active);
                        assert(identity_key(m[i]) == identity_key(m0[i]));
                        assert(m0[i].active ==> m[i].active);
                    } else {
                        assert(identity_key(m[p]) == identity_key(x));
                    }
                }
            },
            None => {
                assert(m == m0.push(x));
                assert forall|i: int, j: int| 0 <= i < j < m.len() implies identity_key(m[i]) != identity_key(m[j]) by {
                    if j == m.len() - 1 {
                        assert(m[i] == m0[i]);
                    } else {
                        assert(m[i] == m0[i] && m[j] == m0[j]);
                    }
                }
                assert forall|k: int| 0 <= k < xs.len() implies found_in(m, #[trigger] xs[k]) by {
                    if k < xs.len() - 1 {
                        assert(prev[k] == xs[k]);
                        assert(found_in(m0, prev[k]));
                        let i = choose|i: int|
                            0 <= i < m0.len() && identity_key(m0[i]) == identity_key(prev[k]) && (prev[k].active
                                ==> m0[i].active);
                        assert(m[i] == m0[i]);
                    } else {
                        assert(m[m0.len() as int] == x);
                    }
                }
            },
        }
    }
}

} // verus!
