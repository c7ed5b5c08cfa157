//! End-to-end tests of the host function handlers over the model backend:
//! the guest demo scenario, unknown profiles, the round trip, idempotence,
//! stat after write, isolation between profiles, the short-buffer boundary,
//! and each fault condition that a malformed call produces.

use storage_bridge::bridge::{Bridge, HostFault};
use storage_bridge::memory::GuestMem;

fn bv(s: &str) -> Vec<u8> {
    s.as_bytes().to_vec()
}

// Guest memory layout used throughout: profile names at 0 and 8, an unknown
// profile name at 24, a malformed name at 28, the file name at 16, payloads
// at 32 and 64, the destination buffer at 128, the readlen out-parameter at
// 512.
fn setup() -> (Bridge, GuestMem) {
    let mut bridge = Bridge::new();
    assert!(bridge.add_profile(bv("abc")));
    assert!(bridge.add_profile(bv("xyz")));
    let mut mem = GuestMem::new(1024);
    assert!(mem.write_bytes(0, &bv("abc")));
    assert!(mem.write_bytes(8, &bv("xyz")));
    assert!(mem.write_bytes(16, &bv("test.txt")));
    assert!(mem.write_bytes(24, &bv("nope")));
    assert!(mem.write_bytes(28, &vec![0xFFu8]));
    assert!(mem.write_bytes(32, &bv("hello world, abc")));
    assert!(mem.write_bytes(64, &bv("hello world, xyz")));
    (bridge, mem)
}

fn snapshot(mem: &GuestMem) -> Vec<u8> {
    mem.read_bytes(0, mem.size()).unwrap()
}

#[test]
fn guest_demo_scenario() {
    let (mut bridge, mut mem) = setup();
    assert_eq!(bridge.custom_write(&mem, 0, 3, 16, 8, 32, 16), Ok(0));
    assert_eq!(bridge.custom_write(&mem, 8, 3, 16, 8, 64, 16), Ok(0));
    assert_eq!(bridge.custom_stat(&mem, 0, 3, 16, 8), Ok(16));
    assert_eq!(bridge.custom_stat(&mem, 8, 3, 16, 8), Ok(16));

    assert_eq!(bridge.custom_read(&mut mem, 0, 3, 16, 8, 128, 1024 - 128, 512), Ok(0));
    assert_eq!(mem.read_u32_le(512), Some(16));
    assert_eq!(mem.read_bytes(128, 16).unwrap(), bv("hello world, abc"));

    assert_eq!(bridge.custom_read(&mut mem, 8, 3, 16, 8, 128, 1024 - 128, 512), Ok(0));
    assert_eq!(mem.read_u32_le(512), Some(16));
    assert_eq!(mem.read_bytes(128, 16).unwrap(), bv("hello world, xyz"));
}

#[test]
fn unknown_profile_returns_minus_one_and_writes_nothing() {
    let (mut bridge, mut mem) = setup();
    assert_eq!(bridge.custom_write(&mem, 0, 3, 16, 8, 32, 16), Ok(0));
    let before = snapshot(&mem);
    assert_eq!(bridge.custom_stat(&mem, 24, 4, 16, 8), Ok(-1));
    assert_eq!(bridge.custom_read(&mut mem, 24, 4, 16, 8, 128, 64, 512), Ok(-1));
    assert_eq!(bridge.custom_write(&mem, 24, 4, 16, 8, 32, 16), Ok(-1));
    assert_eq!(snapshot(&mem), before);
    // The write through the unknown profile must not have touched "abc".
    assert_eq!(bridge.custom_stat(&mem, 0, 3, 16, 8), Ok(16));
}

#[test]
fn write_read_round_trip() {
    let (mut bridge, mut mem) = setup();
    assert_eq!(bridge.custom_write(&mem, 0, 3, 16, 8, 32, 16), Ok(0));
    // Buffer sized exactly to the content.
    assert_eq!(bridge.custom_read(&mut mem, 0, 3, 16, 8, 128, 16, 512), Ok(0));
    assert_eq!(mem.read_u32_le(512), Some(16));
    assert_eq!(mem.read_bytes(128, 16).unwrap(), bv("hello world, abc"));
}

#[test]
fn write_twice_reads_as_once() {
    let (mut bridge, mut mem) = setup();
    assert_eq!(bridge.custom_write(&mem, 0, 3, 16, 8, 32, 16), Ok(0));
    assert_eq!(bridge.custom_write(&mem, 0, 3, 16, 8, 32, 16), Ok(0));
    assert_eq!(bridge.custom_stat(&mem, 0, 3, 16, 8), Ok(16));
    assert_eq!(bridge.custom_read(&mut mem, 0, 3, 16, 8, 128, 16, 512), Ok(0));
    assert_eq!(mem.read_u32_le(512), Some(16));
    assert_eq!(mem.read_bytes(128, 16).unwrap(), bv("hello world, abc"));
}

#[test]
fn last_write_wins() {
    let (mut bridge, mut mem) = setup();
    assert_eq!(bridge.custom_write(&mem, 0, 3, 16, 8, 32, 16), Ok(0));
    assert_eq!(bridge.custom_write(&mem, 0, 3, 16, 8, 64, 16), Ok(0));
    assert_eq!(bridge.custom_read(&mut mem, 0, 3, 16, 8, 128, 16, 512), Ok(0));
    assert_eq!(mem.read_bytes(128, 16).unwrap(), bv("hello world, xyz"));
}

#[test]
fn stat_after_write_returns_length() {
    let (mut bridge, mut mem) = setup();
    assert_eq!(bridge.custom_stat(&mem, 0, 3, 16, 8), Err(HostFault::Backend));
    assert_eq!(bridge.custom_write(&mem, 0, 3, 16, 8, 32, 16), Ok(0));
    assert_eq!(bridge.custom_stat(&mem, 0, 3, 16, 8), Ok(16));
    // A shorter payload replaces the longer one entirely.
    assert_eq!(bridge.custom_write(&mem, 0, 3, 16, 8, 32, 5), Ok(0));
    assert_eq!(bridge.custom_stat(&mem, 0, 3, 16, 8), Ok(5));
}

#[test]
fn profiles_are_isolated() {
    let (mut bridge, mut mem) = setup();
    assert_eq!(bridge.custom_write(&mem, 0, 3, 16, 8, 32, 16), Ok(0));
    // The same file name through the other profile is absent.
    assert_eq!(bridge.custom_stat(&mem, 8, 3, 16, 8), Err(HostFault::Backend));
    assert_eq!(
        bridge.custom_read(&mut mem, 8, 3, 16, 8, 128, 64, 512),
        Err(HostFault::Backend)
    );
    // Writing it through the other profile leaves the first untouched.
    assert_eq!(bridge.custom_write(&mem, 8, 3, 16, 8, 64, 16), Ok(0));
    assert_eq!(bridge.custom_read(&mut mem, 0, 3, 16, 8, 128, 16, 512), Ok(0));
    assert_eq!(mem.read_bytes(128, 16).unwrap(), bv("hello world, abc"));
}

#[test]
fn short_buffer_faults_and_writes_nothing() {
    let (mut bridge, mut mem) = setup();
    assert_eq!(bridge.custom_write(&mem, 0, 3, 16, 8, 32, 16), Ok(0));
    let before = snapshot(&mem);
    // One byte short of the content.
    assert_eq!(
        bridge.custom_read(&mut mem, 0, 3, 16, 8, 128, 15, 512),
        Err(HostFault::BufferOverrun)
    );
    assert_eq!(snapshot(&mem), before);
    // A zero-length buffer.
    assert_eq!(
        bridge.custom_read(&mut mem, 0, 3, 16, 8, 128, 0, 512),
        Err(HostFault::BufferOverrun)
    );
    assert_eq!(snapshot(&mem), before);
}

#[test]
fn out_of_bounds_handles_fault() {
    let (mut bridge, mut mem) = setup();
    let before = snapshot(&mem);
    // Name region past the end of memory.
    assert_eq!(bridge.custom_stat(&mem, 1020, 8, 16, 8), Err(HostFault::OutOfBounds));
    assert_eq!(bridge.custom_write(&mem, 1020, 8, 16, 8, 32, 16), Err(HostFault::OutOfBounds));
    // Payload region out of range.
    assert_eq!(bridge.custom_write(&mem, 0, 3, 16, 8, 1020, 16), Err(HostFault::OutOfBounds));
    // Readlen pointer and buffer out of range.
    assert_eq!(
        bridge.custom_read(&mut mem, 0, 3, 16, 8, 128, 16, 1022),
        Err(HostFault::OutOfBounds)
    );
    assert_eq!(
        bridge.custom_read(&mut mem, 0, 3, 16, 8, 1020, 16, 512),
        Err(HostFault::OutOfBounds)
    );
    assert_eq!(snapshot(&mem), before);
}

#[test]
fn malformed_name_faults() {
    let (mut bridge, mut mem) = setup();
    assert_eq!(bridge.custom_stat(&mem, 28, 1, 16, 8), Err(HostFault::InvalidUtf8));
    assert_eq!(bridge.custom_write(&mem, 28, 1, 16, 8, 32, 16), Err(HostFault::InvalidUtf8));
    assert_eq!(
        bridge.custom_read(&mut mem, 28, 1, 16, 8, 128, 64, 512),
        Err(HostFault::InvalidUtf8)
    );
    // A malformed file name faults too, even for a registered profile.
    assert_eq!(bridge.custom_stat(&mem, 0, 3, 28, 1), Err(HostFault::InvalidUtf8));
}

#[test]
fn duplicate_profile_is_refused() {
    let mut bridge = Bridge::new();
    assert!(bridge.add_profile(bv("abc")));
    assert!(!bridge.add_profile(bv("abc")));
}
