//! Membership, accounting and handle-sharing behavior of the module cache.

use soroban_bridge::cache::ProtocolSpecificModuleCache;

fn hash(byte: u8) -> Vec<u8> {
    vec![byte; 32]
}

#[test]
fn compile_then_contains() {
    let mut cache = ProtocolSpecificModuleCache::new().unwrap();
    let key = hash(1);
    assert!(!cache.contains_module(&key).unwrap());
    cache.compile(&key, &vec![0, 1, 2, 3]).unwrap();
    assert!(cache.contains_module(&key).unwrap());
}

#[test]
fn evict_then_absent() {
    let mut cache = ProtocolSpecificModuleCache::new().unwrap();
    let key = hash(2);
    cache.compile(&key, &vec![9, 9]).unwrap();
    assert!(cache.contains_module(&key).unwrap());
    cache.evict(&key).unwrap();
    assert!(!cache.contains_module(&key).unwrap());
    // Evicting an absent key succeeds silently.
    cache.evict(&key).unwrap();
    assert!(!cache.contains_module(&key).unwrap());
}

#[test]
fn clear_removes_everything() {
    let mut cache = ProtocolSpecificModuleCache::new().unwrap();
    for b in 0..4u8 {
        cache.compile(&hash(b), &vec![b]).unwrap();
    }
    cache.clear().unwrap();
    for b in 0..4u8 {
        assert!(!cache.contains_module(&hash(b)).unwrap());
    }
}

#[test]
fn compile_replaces_existing_entry() {
    let mut cache = ProtocolSpecificModuleCache::new().unwrap();
    let key = hash(3);
    cache.compile(&key, &vec![1]).unwrap();
    cache.compile(&key, &vec![2, 2]).unwrap();
    assert!(cache.contains_module(&key).unwrap());
}

#[test]
fn memory_counter_accumulates_per_handle() {
    let mut cache = ProtocolSpecificModuleCache::new().unwrap();
    assert_eq!(cache.get_mem_bytes_consumed().unwrap(), 0);
    cache.compile(&hash(4), &vec![0u8; 100]).unwrap();
    assert_eq!(cache.get_mem_bytes_consumed().unwrap(), 100);
    cache.compile(&hash(5), &vec![0u8; 28]).unwrap();
    assert_eq!(cache.get_mem_bytes_consumed().unwrap(), 128);
}

#[test]
fn shallow_clone_shares_store_with_fresh_counter() {
    let mut first = ProtocolSpecificModuleCache::new().unwrap();
    first.compile(&hash(6), &vec![1, 2, 3]).unwrap();
    let mut second = first.shallow_clone().unwrap();
    // The clone sees the shared store but starts with a zeroed counter.
    assert!(second.contains_module(&hash(6)).unwrap());
    assert_eq!(second.get_mem_bytes_consumed().unwrap(), 0);
    // A compilation through one handle is visible through the other, and is
    // charged only to the handle that compiled.
    second.compile(&hash(7), &vec![0u8; 10]).unwrap();
    assert!(first.contains_module(&hash(7)).unwrap());
    assert_eq!(first.get_mem_bytes_consumed().unwrap(), 3);
    assert_eq!(second.get_mem_bytes_consumed().unwrap(), 10);
}

#[test]
fn duplicated_handles_fill_one_shared_store() {
    let original = ProtocolSpecificModuleCache::new().unwrap();
    let mut handles = Vec::new();
    for _ in 0..8 {
        handles.push(original.shallow_clone().unwrap());
    }
    for (i, handle) in handles.iter_mut().enumerate() {
        handle.compile(&hash(i as u8), &vec![i as u8]).unwrap();
    }
    for i in 0..8u8 {
        assert!(original.contains_module(&hash(i)).unwrap());
    }
}
