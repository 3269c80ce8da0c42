//! Root-address scan scenarios.

use eve_ui_tree::memory::MemorySnapshot;
use eve_ui_tree::memory::RegionContent;
use eve_ui_tree::extract_possible_root_address::ExtractPossibleRootAddress;

const BASE: u64 = 0x300000;

fn w64(bytes: &mut Vec<u8>, off: usize, v: u64) {
    let b = v.to_le_bytes();
    let mut i = 0;
    while i < 8 {
        bytes[off + i] = b[i];
        i += 1;
    }
}

fn snapshot_of(regions: Vec<(u64, Vec<u8>)>) -> MemorySnapshot {
    MemorySnapshot::from_regions(
        regions
            .into_iter()
            .map(|(base_address, bytes)| RegionContent { base_address, bytes })
            .collect(),
    )
    .unwrap()
}

#[test]
fn self_referential_word_pair_is_a_candidate() {
    // Word k points nowhere special, word k+1 holds the candidate's own
    // address, word k+3 points at ASCII "type".
    let mut bytes = vec![0u8; 1024];
    let k = 4usize;
    let candidate = BASE + (k as u64) * 8;
    w64(&mut bytes, 8 * (k + 1), candidate);
    w64(&mut bytes, 8 * (k + 3), BASE + 512);
    bytes[512..516].copy_from_slice(b"type");
    let snapshot = snapshot_of(vec![(BASE, bytes)]);
    let locator = ExtractPossibleRootAddress::new();
    let regions = snapshot.committed_regions();
    let found = locator
        .enumerate_candidates_for_python_type_object_type_in_memory_region(&snapshot, regions[0]);
    assert_eq!(found, vec![candidate]);
}

#[test]
fn region_without_pattern_yields_no_candidate() {
    // Self-reference without the name, and a name without the
    // self-reference: neither is a candidate.
    let mut bytes = vec![0u8; 1024];
    w64(&mut bytes, 8 * 3, BASE + 16);
    w64(&mut bytes, 8 * 11, BASE + 512);
    bytes[512..516].copy_from_slice(b"type");
    let snapshot = snapshot_of(vec![(BASE, bytes)]);
    let locator = ExtractPossibleRootAddress::new();
    let regions = snapshot.committed_regions();
    let found = locator
        .enumerate_candidates_for_python_type_object_type_in_memory_region(&snapshot, regions[0]);
    assert_eq!(found, vec![]);
}

#[test]
fn three_phase_scan_finds_the_instance() {
    let mut bytes = vec![0u8; 4096];
    // Names.
    bytes[3000..3004].copy_from_slice(b"type");
    bytes[3104..3110].copy_from_slice(b"UIRoot");
    // Phase one: a type-object candidate at word 8: its next word points at
    // itself and word 11 points at "type".
    let type_type = BASE + 8 * 8;
    w64(&mut bytes, 8 * 9, type_type);
    w64(&mut bytes, 8 * 11, BASE + 3000);
    // Phase two: a named type object at word 32: its next word points at
    // the phase-one candidate, and word 35 points at "UIRoot".
    let ui_root_type = BASE + 8 * 32;
    w64(&mut bytes, 8 * 33, type_type);
    w64(&mut bytes, 8 * 35, BASE + 3104);
    // Phase three: an instance at word 64: its next word points at the
    // UIRoot type object.
    let instance = BASE + 8 * 64;
    w64(&mut bytes, 8 * 65, ui_root_type);
    let snapshot = snapshot_of(vec![(BASE, bytes)]);
    let locator = ExtractPossibleRootAddress::new();
    let found = locator.execute(&snapshot).unwrap();
    // The UIRoot type object itself also has the UIRoot type pointer shape
    // only if its own next word matched; here only the instance does --
    // along with the type object's reference via phase two's own word.
    assert!(found.contains(&instance));
    // Every reported address has a word pointing at the UIRoot type object.
    for address in &found {
        let word = snapshot.read_bytes(address + 8, 8).unwrap();
        assert_eq!(u64::from_le_bytes([word[0], word[1], word[2], word[3], word[4], word[5], word[6], word[7]]), ui_root_type);
    }
}

#[test]
fn null_terminated_name_scan() {
    let mut bytes = vec![0u8; 1024];
    bytes[0..5].copy_from_slice(b"hello");
    // Bytes 5.. stay zero: the name ends there.
    let snapshot = snapshot_of(vec![(BASE, bytes)]);
    let locator = ExtractPossibleRootAddress::new();
    let name = locator
        .read_null_terminated_ascii_string_from_address_up_to255(&snapshot, BASE)
        .unwrap();
    assert_eq!(name.as_str(), "hello");
    // An unreadable address yields nothing.
    assert!(locator
        .read_null_terminated_ascii_string_from_address_up_to255(&snapshot, 0x1)
        .is_none());
}
