//! Tests of startup planning, the scheme index table, and registry
//! initialisation against the real storage layer: a profile backed by the
//! in-memory service, an unrecognised scheme, a missing scheme key, and
//! duplicated profile names.

use storage_bridge::config::{RawProfile, SettingPair, extract_scheme, plan_profiles};
use storage_bridge::scheme::{SCHEME_INDEX_BASE, build_scheme_table};
use storage_bridge::init::{InitError, initialize};

fn bv(s: &str) -> Vec<u8> {
    s.as_bytes().to_vec()
}

fn pair(k: &str, v: &str) -> SettingPair {
    SettingPair { key: bv(k), value: bv(v) }
}

fn raw(name: &str, settings: Vec<SettingPair>) -> RawProfile {
    RawProfile { name: bv(name), settings }
}

#[test]
fn extract_scheme_pulls_first_scheme_pair() {
    let settings = vec![pair("root", "/tmp"), pair("scheme", "memory"), pair("scheme", "fs")];
    let (scheme, rest) = extract_scheme(&settings).unwrap();
    assert_eq!(scheme, bv("memory"));
    assert_eq!(rest.len(), 2);
    assert_eq!(rest[0].key, bv("root"));
    assert_eq!(rest[1].key, bv("scheme"));
    assert_eq!(rest[1].value, bv("fs"));
}

#[test]
fn extract_scheme_reports_absence() {
    assert!(extract_scheme(&vec![pair("root", "/tmp")]).is_none());
    assert!(extract_scheme(&Vec::new()).is_none());
}

#[test]
fn plan_profiles_keeps_order_and_settings() {
    let raws = vec![
        raw("abc", vec![pair("scheme", "memory")]),
        raw("xyz", vec![pair("root", "/tmp"), pair("scheme", "fs")]),
    ];
    let plan = plan_profiles(&raws).unwrap();
    assert_eq!(plan.len(), 2);
    assert_eq!(plan[0].name, bv("abc"));
    assert_eq!(plan[0].scheme, bv("memory"));
    assert!(plan[0].settings.is_empty());
    assert_eq!(plan[1].name, bv("xyz"));
    assert_eq!(plan[1].scheme, bv("fs"));
    assert_eq!(plan[1].settings.len(), 1);
    assert_eq!(plan[1].settings[0].key, bv("root"));
}

#[test]
fn plan_profiles_fails_without_scheme() {
    let raws = vec![
        raw("abc", vec![pair("scheme", "memory")]),
        raw("bad", vec![pair("root", "/tmp")]),
    ];
    assert!(plan_profiles(&raws).is_err());
}

#[test]
fn scheme_table_indices_start_at_the_base() {
    let raws = vec![
        raw("abc", vec![pair("scheme", "memory")]),
        raw("xyz", vec![pair("scheme", "fs")]),
    ];
    let plan = plan_profiles(&raws).unwrap();
    let table = build_scheme_table(&plan);
    assert_eq!(table.entries.len(), 2);
    assert_eq!(table.entries[0].name, bv("abc"));
    assert_eq!(table.entries[0].index, SCHEME_INDEX_BASE);
    assert_eq!(table.entries[0].scheme, bv("memory"));
    assert_eq!(table.entries[1].name, bv("xyz"));
    assert_eq!(table.entries[1].index, SCHEME_INDEX_BASE + 1);
    assert_eq!(table.entries[1].scheme, bv("fs"));
    assert_eq!(table.find_name(&bv("xyz")), Some(1));
    assert_eq!(table.find_name(&bv("nope")), None);
}

#[test]
fn initialize_builds_memory_backed_registry() {
    // The blocking adaptation layer needs an async runtime at hand.
    let rt = tokio::runtime::Runtime::new().unwrap();
    let _guard = rt.enter();
    let raws = vec![raw("abc", vec![pair("scheme", "memory")])];
    let (reg, table) = initialize(&raws).unwrap();
    assert_eq!(reg.len(), 1);
    assert!(reg.resolve(&bv("abc")).is_some());
    assert!(reg.resolve(&bv("xyz")).is_none());
    assert_eq!(table.entries.len(), 1);
    assert_eq!(table.entries[0].index, SCHEME_INDEX_BASE);
}

#[test]
fn initialize_of_nothing_succeeds() {
    let raws: Vec<RawProfile> = Vec::new();
    let (reg, table) = initialize(&raws).unwrap();
    assert_eq!(reg.len(), 0);
    assert_eq!(table.entries.len(), 0);
}

#[test]
fn initialize_rejects_unknown_scheme() {
    let rt = tokio::runtime::Runtime::new().unwrap();
    let _guard = rt.enter();
    let raws = vec![raw("abc", vec![pair("scheme", "no-such-backend")])];
    match initialize(&raws) {
        Err(e) => assert_eq!(e, InitError::Backend),
        Ok(_) => panic!("an unknown scheme must be refused"),
    }
}

#[test]
fn initialize_rejects_missing_scheme() {
    let raws = vec![raw("abc", vec![pair("root", "/tmp")])];
    match initialize(&raws) {
        Err(e) => assert_eq!(e, InitError::MissingScheme),
        Ok(_) => panic!("a profile without a scheme must be refused"),
    }
}

#[test]
fn initialize_rejects_duplicate_profiles() {
    let rt = tokio::runtime::Runtime::new().unwrap();
    let _guard = rt.enter();
    let raws = vec![
        raw("abc", vec![pair("scheme", "memory")]),
        raw("abc", vec![pair("scheme", "memory")]),
    ];
    match initialize(&raws) {
        Err(e) => assert_eq!(e, InitError::DuplicateProfile),
        Ok(_) => panic!("duplicated profile names must be refused"),
    }
}
