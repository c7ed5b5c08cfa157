//! Startup configuration shaping. A configuration document maps each profile
//! name to a table of backend settings; the one reserved key, `scheme`,
//! selects the backend type, and every other pair is passed through to the
//! backend verbatim. Planning pulls the scheme out of each table and fails
//! when a table has none — a startup-fatal condition.

use vstd::prelude::*;
use crate::bytes::{bytes_eq, copy_bytes};

verus! {

/// One backend setting, key and value, as raw bytes.
pub struct SettingPair {
    pub key: Vec<u8>,
    pub value: Vec<u8>,
}

/// One configuration entry as read from the document: a profile name and
/// its settings table, the reserved `scheme` key still among them.
pub struct RawProfile {
    pub name: Vec<u8>,
    pub settings: Vec<SettingPair>,
}

/// One planned profile: the scheme pulled out, the remaining settings kept
/// verbatim for the backend.
pub struct ProfileConfig {
    pub name: Vec<u8>,
    pub scheme: Vec<u8>,
    pub settings: Vec<SettingPair>,
}

/// The settings as (key, value) byte-sequence pairs.
pub open spec fn pairs_view(s: Seq<SettingPair>) -> Seq<(Seq<u8>, Seq<u8>)> {
    Seq::new(s.len(), |i: int| (s[i].key@, s[i].value@))
}

/// The reserved settings key selecting the backend type: `scheme`.
pub open spec fn scheme_key() -> Seq<u8> {
    seq![115u8, 99u8, 104u8, 101u8, 109u8, 101u8]
}

/// The reserved key as bytes.
pub fn scheme_key_bytes() -> (r: Vec<u8>)
    ensures
        r@ == scheme_key(),
{
    let mut r: Vec<u8> = Vec::new();
    r.push(115u8);
    r.push(99u8);
    r.push(104u8);
    r.push(101u8);
    r.push(109u8);
    r.push(101u8);
    assert(r@ =~= scheme_key());
    r
}

/// Whether some pair of `s` carries key `k`.
pub open spec fn has_key(s: Seq<SettingPair>, k: Seq<u8>) -> bool {
    exists|i: int| 0 <= i < s.len() && s[i].key@ == k
}

/// The position of the first pair of `s` carrying key `k`.
pub open spec fn first_index_of_key(s: Seq<SettingPair>, k: Seq<u8>) -> int {
    choose|i: int|
        0 <= i < s.len() && s[i].key@ == k && forall|j: int| 0 <= j < i ==> s[j].key@ != k
}

/// The value of the first pair of `s` carrying the reserved `scheme` key.
pub open spec fn scheme_of(s: Seq<SettingPair>) -> Seq<u8> {
    s[first_index_of_key(s, scheme_key())].value@
}

/// The settings with the first `scheme` pair removed, as the backend is to
/// receive them.
pub open spec fn settings_without_scheme(s: Seq<SettingPair>) -> Seq<(Seq<u8>, Seq<u8>)> {
    pairs_view(s).remove(first_index_of_key(s, scheme_key()))
}

/// A position that carries `k` with none before it is the first one.
proof fn lemma_first_index(s: Seq<SettingPair>, k: Seq<u8>, i: int)
    requires
        0 <= i < s.len(),
        s[i].key@ == k,
        forall|j: int| 0 <= j < i ==> s[j].key@ != k,
    ensures
        first_index_of_key(s, k) == i,
{
    let c = first_index_of_key(s, k);
    assert(0 <= c < s.len() && s[c].key@ == k && forall|j: int| 0 <= j < c ==> s[j].key@ != k);
}

/// Pulls the backend scheme out of a settings table: the value of the first
/// `scheme` pair, together with the remaining pairs in their order; nothing
/// when the table carries no `scheme` key.
pub fn extract_scheme(settings: &Vec<SettingPair>) -> (r: Option<(Vec<u8>, Vec<SettingPair>)>)
    ensures
        r is Some <==> has_key(settings@, scheme_key()),
        r matches Some(p) ==> p.0@ == scheme_of(settings@)
            && pairs_view(p.1@) == settings_without_scheme(settings@),
{
    let key = scheme_key_bytes();
    let n = settings.len();
    let mut i: usize = 0;
    while i < n
        invariant
            i <= n,
            n == settings@.len(),
            key@ == scheme_key(),
            forall|j: int| 0 <= j < i ==> settings@[j].key@ != scheme_key(),
        decreases n - i,
    {
        if bytes_eq(&settings[i].key, &key) {
            proof {
                lemma_first_index(settings@, scheme_key(), i as int);
            }
            let scheme = copy_bytes(&settings[i].value);
            let mut rest: Vec<SettingPair> = Vec::new();
            let mut j: usize = 0;
            while j < n
                invariant
                    j <= n,
                    n == settings@.len(),
                    i < n,
                    rest@.len() == if j <= i { j as int } else { j - 1 },
                    forall|t: int| 0 <= t < rest@.len() ==> {
                        let u = if t < i { t } else { t + 1 };
                        (#[trigger] rest@[t]).key@ == settings@[u].key@
                            && rest@[t].value@ == settings@[u].value@
                    },
                decreases n - j,
            {
                if j != i {
                    let pair = SettingPair {
                        key: copy_bytes(&settings[j].key),
                        value: copy_bytes(&settings[j].value),
                    };
                    rest.push(pair);
                }
                j = j + 1;
            }
            assert(pairs_view(rest@) =~= pairs_view(settings@).remove(i as int));
            return Some((scheme, rest));
        }
        i = i + 1;
    }
    None
}

/// The planning failure: a profile's settings table names no backend scheme.
#[derive(Clone, Copy, PartialEq, Eq, Structural, Debug)]
pub enum ConfigError {
    MissingScheme,
}

/// Plans every configured profile: pulls the scheme out of each settings
/// table, keeping names, order and the remaining settings intact. Fails —
/// as a whole, the startup-fatal way — exactly when some table carries no
/// `scheme` key.
pub fn plan_profiles(raw: &Vec<RawProfile>) -> (r: Result<Vec<ProfileConfig>, ConfigError>)
    ensures
        r is Ok <==> (forall|i: int|
            0 <= i < raw@.len() ==> has_key(#[trigger] raw@[i].settings@, scheme_key())),
        r matches Ok(plan) ==> {
            &&& plan@.len() == raw@.len()
            &&& forall|i: int| 0 <= i < raw@.len() ==> {
                &&& (#[trigger] plan@[i]).name@ == raw@[i].name@
                &&& plan@[i].scheme@ == scheme_of(raw@[i].settings@)
                &&& pairs_view(plan@[i].settings@) == settings_without_scheme(raw@[i].settings@)
            }
        },
        r matches Err(e) ==> e == ConfigError::MissingScheme,
{
    let n = raw.len();
    let mut plan: Vec<ProfileConfig> = Vec::new();
    let mut i: usize = 0;
    while i < n
        invariant
            i <= n,
            n == raw@.len(),
            plan@.len() == i,
            forall|t: int| 0 <= t < i ==> has_key(#[trigger] raw@[t].settings@, scheme_key()),
            forall|t: int| 0 <= t < i ==> {
                &&& (#[trigger] plan@[t]).name@ == raw@[t].name@
                &&& plan@[t].scheme@ == scheme_of(raw@[t].settings@)
                &&& pairs_view(plan@[t].settings@) == settings_without_scheme(raw@[t].settings@)
            },
        decreases n - i,
    {
        match extract_scheme(&raw[i].settings) {
            None => {
                return Err(ConfigError::MissingScheme);
            },
            Some(pair) => {
                let (scheme, settings) = pair;
                let entry = ProfileConfig { name: copy_bytes(&raw[i].name), scheme, settings };
                plan.push(entry);
            },
        }
        i = i + 1;
    }
    Ok(plan)
}

} // verus!
