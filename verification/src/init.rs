//! Registry initialisation: from the planned profiles, construct one
//! configured backend capability per profile, adapt it for synchronous
//! callers, and register it under its profile name, building the scheme
//! index table in lockstep. Initialisation runs to completion before any
//! guest call is dispatched, and fails as a whole — the startup-fatal way —
//! rather than leaving a partially usable registry behind.

use vstd::prelude::*;
use crate::bytes::copy_bytes;
use crate::config::{RawProfile, ProfileConfig, has_key, scheme_key, scheme_of, plan_profiles,
    SettingPair};
use crate::registry::Registry;
use crate::scheme::{SchemeTable, SCHEME_INDEX_BASE, build_scheme_table};

verus! {

#[verifier::external_type_specification]
#[verifier::external_body]
pub struct ExOperator(opendal::Operator);

#[verifier::external_type_specification]
#[verifier::external_body]
pub struct ExOpendalError(opendal::Error);

#[verifier::external_type_specification]
#[verifier::external_body]
pub struct ExScheme(opendal::Scheme);

/// Relies on opendal's `Scheme::from_str`: parses a backend scheme name;
/// a name it does not recognise maps to a custom scheme rather than an
/// error. Which is which is opendal's decision; nothing is assumed of the
/// result.
#[verifier::external_body]
fn parse_scheme(scheme: &Vec<u8>) -> (r: Result<opendal::Scheme, opendal::Error>)
{
    let text = String::from_utf8_lossy(scheme.as_slice()).into_owned();
    <opendal::Scheme as std::str::FromStr>::from_str(&text)
}

/// Relies on opendal's `Operator::via_map`: constructs an operator bound to
/// the given backend scheme from the settings, failing on a scheme without
/// a compiled-in service or on invalid settings. Both are opendal's
/// decision; nothing is assumed of the result. The settings reach the call
/// as a string map: non-UTF-8 bytes are replaced on the way, and of
/// duplicated keys the last wins — configuration documents produce neither.
#[verifier::external_body]
fn build_operator(
    scheme: opendal::Scheme,
    settings: &Vec<SettingPair>,
) -> (r: Result<opendal::Operator, opendal::Error>)
{
    let mut map = std::collections::HashMap::new();
    for pair in settings.iter() {
        map.insert(
            String::from_utf8_lossy(pair.key.as_slice()).into_owned(),
            String::from_utf8_lossy(pair.value.as_slice()).into_owned(),
        );
    }
    opendal::Operator::via_map(scheme, map)
}

/// Relies on opendal's `BlockingLayer`: layers the operator so that
/// synchronous-only callers still reach its asynchronous surface. Creation
/// needs an async runtime at hand — an environmental condition — so nothing
/// is assumed of the result.
#[verifier::external_body]
fn adapt_operator(op: opendal::Operator) -> (r: Result<opendal::Operator, opendal::Error>)
{
    let layer = opendal::layers::BlockingLayer::create()?;
    Ok(op.layer(layer))
}

/// Why initialisation failed as a whole.
#[derive(Clone, Copy, PartialEq, Eq, Structural, Debug)]
pub enum InitError {
    /// Some profile's settings table names no backend scheme.
    MissingScheme,
    /// Two profiles carry the same name.
    DuplicateProfile,
    /// The storage layer refused a scheme, the settings, or the adaptation.
    Backend,
}

/// Builds the storage registry and the scheme index table from the raw
/// configuration entries, in their order: for each entry the backend scheme
/// is pulled out of the settings, a capability is constructed and adapted,
/// and the pair is registered; table entry `i` carries index
/// `SCHEME_INDEX_BASE + i` and the original scheme string.
///
/// A settings table without a scheme key is reported as `MissingScheme`,
/// always and before anything is built; a duplicated profile name is
/// reported exactly as such. `Backend` reports a refusal by the storage
/// layer, whose own rules decide which schemes and settings it accepts — so
/// success is owed only for an empty configuration.
pub fn initialize(raw: &Vec<RawProfile>) -> (r: Result<(Registry<opendal::Operator>, SchemeTable), InitError>)
    requires
        raw@.len() + SCHEME_INDEX_BASE <= u32::MAX,
    ensures
        r matches Ok(out) ==> {
            &&& out.0.wf()
            &&& out.0.entry_seq().len() == raw@.len()
            &&& forall|i: int|
                0 <= i < raw@.len() ==> (#[trigger] out.0.entry_seq()[i]).0 == raw@[i].name@
            &&& out.1.entry_seq().len() == raw@.len()
            &&& forall|i: int| 0 <= i < raw@.len() ==> {
                &&& (#[trigger] out.1.entry_seq()[i]).0 == raw@[i].name@
                &&& out.1.entry_seq()[i].1 == SCHEME_INDEX_BASE + i
                &&& out.1.entry_seq()[i].2 == scheme_of(raw@[i].settings@)
            }
            &&& forall|i: int|
                0 <= i < raw@.len() ==> has_key(#[trigger] raw@[i].settings@, scheme_key())
            &&& forall|i: int, j: int|
                0 <= i < j < raw@.len() ==> raw@[i].name@ != raw@[j].name@
        },
        r == Result::<(Registry<opendal::Operator>, SchemeTable), InitError>::Err(
            InitError::MissingScheme,
        ) <==> exists|i: int|
            0 <= i < raw@.len() && !has_key(#[trigger] raw@[i].settings@, scheme_key()),
        r == Result::<(Registry<opendal::Operator>, SchemeTable), InitError>::Err(
            InitError::DuplicateProfile,
        ) ==> exists|i: int, j: int|
            0 <= i < j < raw@.len() && raw@[i].name@ == raw@[j].name@,
        r == Result::<(Registry<opendal::Operator>, SchemeTable), InitError>::Err(
            InitError::Backend,
        ) ==> forall|i: int|
            0 <= i < raw@.len() ==> has_key(#[trigger] raw@[i].settings@, scheme_key()),
        raw@.len() == 0 ==> r is Ok,
{
    let plan: Vec<ProfileConfig> = match plan_profiles(raw) {
        Err(_) => {
            return Err(InitError::MissingScheme);
        },
        Ok(p) => p,
    };
    let table = build_scheme_table(&plan);
    let mut reg: Registry<opendal::Operator> = Registry::new();
    let n = plan.len();
    let mut i: usize = 0;
    while i < n
        invariant
            i <= n,
            n == plan@.len(),
            n == raw@.len(),
            reg.wf(),
            reg.entry_seq().len() == i,
            forall|t: int| 0 <= t < i ==> (#[trigger] reg.entry_seq()[t]).0 == raw@[t].name@,
            forall|t: int| 0 <= t < n ==> (#[trigger] plan@[t]).name@ == raw@[t].name@,
            forall|t: int| 0 <= t < n ==> has_key(#[trigger] raw@[t].settings@, scheme_key()),
        decreases n - i,
    {
        let op = match parse_scheme(&plan[i].scheme) {
            Err(_) => {
                return Err(InitError::Backend);
            },
            Ok(sch) => match build_operator(sch, &plan[i].settings) {
                Err(_) => {
                    return Err(InitError::Backend);
                },
                Ok(op) => op,
            },
        };
        let op = match adapt_operator(op) {
            Err(_) => {
                return Err(InitError::Backend);
            },
            Ok(op) => op,
        };
        let name = copy_bytes(&plan[i].name);
        let registered = reg.register(name, op);
        if !registered {
            proof {
                let j = choose|j: int|
                    0 <= j < reg.entry_seq().len() && reg.entry_seq()[j].0 == raw@[i as int].name@;
                assert(raw@[j].name@ == raw@[i as int].name@);
            }
            return Err(InitError::DuplicateProfile);
        }
        i = i + 1;
    }
    proof {
        assert forall|a: int, b: int| 0 <= a < b < raw@.len() implies
            raw@[a].name@ != raw@[b].name@ by {
            assert(reg.entry_seq()[a].0 == raw@[a].name@);
            assert(reg.entry_seq()[b].0 == raw@[b].name@);
        }
    }
    Ok((reg, table))
}

} // verus!
