//! Tests of the generic registry and of the model store: one-time
//! registration, refusal of duplicates, lookup, and last-write-wins file
//! contents.

use storage_bridge::registry::Registry;
use storage_bridge::backend::MemStore;

fn bv(s: &str) -> Vec<u8> {
    s.as_bytes().to_vec()
}

#[test]
fn registry_registers_and_resolves() {
    let mut reg: Registry<u32> = Registry::new();
    assert_eq!(reg.len(), 0);
    assert!(reg.resolve(&bv("abc")).is_none());
    assert!(reg.register(bv("abc"), 7));
    assert!(reg.register(bv("xyz"), 9));
    assert_eq!(reg.len(), 2);
    assert_eq!(reg.resolve(&bv("abc")), Some(&7));
    assert_eq!(reg.resolve(&bv("xyz")), Some(&9));
    assert!(reg.resolve(&bv("nope")).is_none());
}

#[test]
fn registry_refuses_duplicates() {
    let mut reg: Registry<u32> = Registry::new();
    assert!(reg.register(bv("abc"), 1));
    assert!(!reg.register(bv("abc"), 2));
    // The first binding stands.
    assert_eq!(reg.resolve(&bv("abc")), Some(&1));
    assert_eq!(reg.len(), 1);
}

#[test]
fn store_stat_read_write() {
    let mut store = MemStore::new();
    assert!(store.stat(&bv("f")).is_none());
    assert!(store.read(&bv("f")).is_none());
    store.write(&bv("f"), &bv("hello"));
    assert_eq!(store.stat(&bv("f")), Some(5));
    assert_eq!(store.read(&bv("f")).unwrap(), bv("hello"));
    // Replacement, not append.
    store.write(&bv("f"), &bv("hi"));
    assert_eq!(store.stat(&bv("f")), Some(2));
    assert_eq!(store.read(&bv("f")).unwrap(), bv("hi"));
    // A second file does not disturb the first.
    store.write(&bv("g"), &bv("other"));
    assert_eq!(store.read(&bv("f")).unwrap(), bv("hi"));
    assert_eq!(store.read(&bv("g")).unwrap(), bv("other"));
}

#[test]
fn store_keeps_empty_contents() {
    let mut store = MemStore::new();
    store.write(&bv("empty"), &Vec::new());
    assert_eq!(store.stat(&bv("empty")), Some(0));
    assert_eq!(store.read(&bv("empty")).unwrap(), Vec::<u8>::new());
}
