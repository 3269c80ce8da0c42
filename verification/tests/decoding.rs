//! Object-level decode tests over synthetic CPython layouts.

use eve_ui_tree::memory::MemorySnapshot;
use eve_ui_tree::memory::RegionContent;
use eve_ui_tree::memory_reading_cache::MemoryReadingCache;
use eve_ui_tree::python_memory_reader::PythonMemoryReader;
use eve_ui_tree::values::IntWrapper;
use eve_ui_tree::float_bits::scaled_255_from_float_bits;
use eve_ui_tree::ExtractError;

const BASE: u64 = 0x200000;

fn w64(bytes: &mut Vec<u8>, off: usize, v: u64) {
    let b = v.to_le_bytes();
    let mut i = 0;
    while i < 8 {
        bytes[off + i] = b[i];
        i += 1;
    }
}

fn snapshot_of(bytes: Vec<u8>) -> MemorySnapshot {
    MemorySnapshot::from_regions(vec![RegionContent { base_address: BASE, bytes }]).unwrap()
}

#[test]
fn str_round_trip_and_max_length() {
    // A `str` object of five ASCII bytes at offset 0.
    let mut bytes = vec![0u8; 256];
    w64(&mut bytes, 16, 5);
    bytes[32..37].copy_from_slice(b"Hello");
    let snapshot = snapshot_of(bytes);
    let mut reader = PythonMemoryReader::new(&snapshot);
    // Decoding with a generous cap yields exactly the stored text.
    let text = reader.read_python_string_value(BASE, 100).unwrap();
    assert_eq!(text.as_str(), "Hello");
    // Decoding with a cap below the length is a decode failure.
    let rejected = reader.read_python_string_value(BASE, 3);
    assert!(matches!(rejected, Err(ExtractError::DecodeFailure)));
}

#[test]
fn dict_slot_count_guard_and_active_filter() {
    // A dictionary claiming 10,001 slots is rejected as corrupt.
    let mut bytes = vec![0u8; 512];
    w64(&mut bytes, 32, 10000);
    let snapshot = snapshot_of(bytes);
    let mut reader = PythonMemoryReader::new(&snapshot);
    let rejected = reader.read_active_dictionary_entries_from_dictionary_address(BASE);
    assert!(matches!(rejected, Err(ExtractError::CorruptionGuard)));

    // Three slots, of which only the middle is active (key and value both
    // nonzero).
    let mut bytes = vec![0u8; 512];
    w64(&mut bytes, 32, 2);
    w64(&mut bytes, 40, BASE + 64);
    w64(&mut bytes, 64 + 24, 7);
    w64(&mut bytes, 64 + 32, 0x111);
    w64(&mut bytes, 64 + 40, 0x222);
    w64(&mut bytes, 64 + 48, 9);
    w64(&mut bytes, 64 + 56, 0x333);
    // value of the third slot stays zero: inactive.
    let snapshot = snapshot_of(bytes);
    let mut reader = PythonMemoryReader::new(&snapshot);
    let entries = reader.read_active_dictionary_entries_from_dictionary_address(BASE).unwrap();
    assert_eq!(entries.len(), 1);
    assert_eq!(entries[0].hash, 7);
    assert_eq!(entries[0].key, 0x111);
    assert_eq!(entries[0].value, 0x222);
}

#[test]
fn int_collapses_to_32_bits_when_lossless() {
    let mut bytes = vec![0u8; 128];
    w64(&mut bytes, 16, 5);
    w64(&mut bytes, 64 + 16, 0x1_0000_0000);
    let snapshot = snapshot_of(bytes);
    let mut reader = PythonMemoryReader::new(&snapshot);
    assert_eq!(reader.reading_from_python_type_int(BASE).unwrap(), IntWrapper::Int32(5));
    assert_eq!(
        reader.reading_from_python_type_int(BASE + 64).unwrap(),
        IntWrapper::Int64(0x1_0000_0000)
    );
}

#[test]
fn int_negative_value() {
    let mut bytes = vec![0u8; 64];
    w64(&mut bytes, 16, (-7i64) as u64);
    let snapshot = snapshot_of(bytes);
    let mut reader = PythonMemoryReader::new(&snapshot);
    assert_eq!(reader.reading_from_python_type_int(BASE).unwrap(), IntWrapper::Int32(-7));
}

#[test]
fn bool_nonzero_means_true() {
    let mut bytes = vec![0u8; 128];
    w64(&mut bytes, 16, 2);
    w64(&mut bytes, 64 + 16, 0);
    let snapshot = snapshot_of(bytes);
    let mut reader = PythonMemoryReader::new(&snapshot);
    assert_eq!(reader.reading_from_python_type_bool(BASE).unwrap(), true);
    assert_eq!(reader.reading_from_python_type_bool(BASE + 64).unwrap(), false);
}

#[test]
fn unicode_reads_two_bytes_per_unit() {
    // Length 2 units at offset 16, data pointer at offset 24.
    let mut bytes = vec![0u8; 128];
    w64(&mut bytes, 16, 2);
    w64(&mut bytes, 24, BASE + 64);
    bytes[64] = b'h';
    bytes[65] = 0;
    bytes[66] = b'i';
    bytes[67] = 0;
    let snapshot = snapshot_of(bytes);
    let mut reader = PythonMemoryReader::new(&snapshot);
    let text = reader.reading_from_python_type_unicode(BASE).unwrap();
    assert_eq!(text.as_str(), "h\u{0}i\u{0}");
}

#[test]
fn unicode_length_cap() {
    let mut bytes = vec![0u8; 64];
    w64(&mut bytes, 16, 4097);
    let snapshot = snapshot_of(bytes);
    let mut reader = PythonMemoryReader::new(&snapshot);
    assert!(matches!(
        reader.reading_from_python_type_unicode(BASE),
        Err(ExtractError::DecodeFailure)
    ));
}

#[test]
fn float_bits_kept_raw() {
    let mut bytes = vec![0u8; 64];
    w64(&mut bytes, 16, 0x3FE0000000000000);
    let snapshot = snapshot_of(bytes);
    let mut reader = PythonMemoryReader::new(&snapshot);
    assert_eq!(reader.read_python_float_object_value(BASE).unwrap(), 0x3FE0000000000000);
}

#[test]
fn scaled_color_component_values() {
    // 0.5 scales to round(127.5) = 128; 1.0 to 255; 0.0 to 0; 2.0 to 510.
    assert_eq!(scaled_255_from_float_bits(0.5f64.to_bits()), 128);
    assert_eq!(scaled_255_from_float_bits(1.0f64.to_bits()), 255);
    assert_eq!(scaled_255_from_float_bits(0.0f64.to_bits()), 0);
    assert_eq!(scaled_255_from_float_bits(2.0f64.to_bits()), 510);
    assert_eq!(scaled_255_from_float_bits((-1.0f64).to_bits()), -255);
    // A quarter: round(63.75) = 64.
    assert_eq!(scaled_255_from_float_bits(0.25f64.to_bits()), 64);
    // Non-finite values: NaN scales to zero, infinities saturate.
    assert_eq!(scaled_255_from_float_bits(f64::NAN.to_bits()), 0);
    assert_eq!(scaled_255_from_float_bits(f64::INFINITY.to_bits()), i32::MAX);
    assert_eq!(scaled_255_from_float_bits(f64::NEG_INFINITY.to_bits()), i32::MIN);
}

#[test]
fn type_name_resolution_and_missing_terminator() {
    // A type object at 0: name pointer at offset 24 to an ASCII name.
    let mut bytes = vec![0u8; 512];
    w64(&mut bytes, 24, BASE + 256);
    bytes[256..259].copy_from_slice(b"str");
    // An object at 64 whose type pointer points at the type object.
    w64(&mut bytes, 64 + 8, BASE);
    // A second type object at 128 whose name never terminates.
    w64(&mut bytes, 128 + 24, BASE + 300);
    let mut i = 300;
    while i < 512 {
        bytes[i] = b'x';
        i += 1;
    }
    let snapshot = snapshot_of(bytes);
    let mut reader = PythonMemoryReader::new(&snapshot);
    let mut cache = MemoryReadingCache::new();
    let name = reader
        .get_python_type_name_from_object_address(BASE + 64, &mut cache)
        .unwrap();
    assert_eq!(name.as_str(), "str");
    // 100 bytes of name with no null terminator fail to decode.
    assert!(matches!(
        reader.get_python_type_name_from_type_object_address(BASE + 128),
        Err(ExtractError::DecodeFailure)
    ));
}

#[test]
fn read_bytes_is_exact_or_fails() {
    let bytes = vec![1u8, 2, 3, 4, 5, 6, 7, 8, 9, 10, 11, 12, 13, 14, 15, 16];
    let snapshot = snapshot_of(bytes);
    let read = snapshot.read_bytes(BASE + 4, 4).unwrap();
    assert_eq!(read, vec![5, 6, 7, 8]);
    // A request past the end is a hard failure, not a partial result.
    assert!(matches!(snapshot.read_bytes(BASE + 12, 8), Err(ExtractError::ReadFailure)));
    assert!(matches!(snapshot.read_bytes(0x999999, 1), Err(ExtractError::ReadFailure)));
    // A zero-length read of a covered address succeeds with nothing.
    assert_eq!(snapshot.read_bytes(BASE, 0).unwrap().len(), 0);
}

#[test]
fn words_are_little_endian() {
    let words =
        eve_ui_tree::memory::transform_memory_content_as_ulong_memory(&[1, 0, 0, 0, 0, 0, 0, 0, 0xFF, 0, 0, 0, 0, 0, 0, 0, 9]);
    assert_eq!(words, vec![1, 0xFF]);
}
