//! Decoding of CPython object layouts out of a memory snapshot.
//!
//! Every decode step is specified exactly, as a function of the snapshot: the
//! fixed per-type byte layouts (object size, field offsets, little-endian
//! fields) are contracts, and a mismatch fails loudly rather than silently
//! truncating.

use vstd::prelude::*;
use vstd::bytes::u64_from_le_bytes;
use vstd::bytes::spec_u64_from_le_bytes;
use vstd::slice::slice_subrange;
use crate::errors::ExtractError;
use crate::memory::MemorySnapshot;
use crate::memory::spec_words_of_bytes;
use crate::memory_reading_cache::MemoryReadingCache;
use crate::values::IntWrapper;
use crate::text::spec_chars_of_bytes;
use crate::text::spec_all_ascii;
use crate::text::string_from_bytes_lossy;

verus! {

/// One live slot of a decoded dictionary: its hash word and the addresses of
/// its key and value objects.
#[derive(Clone, Copy, Debug, PartialEq, Eq, Structural)]
pub struct PyDictEntry {
    pub hash: u64,
    pub key: u64,
    pub value: u64,
}

/// One dictionary entry whose key resolved as a string: the key text and the
/// address of the value object.
#[derive(Debug)]
pub struct KeyedAddress {
    pub key: String,
    pub address: u64,
}

/// The bytes at `[addr, addr + len)`, or `ReadFailure` where the snapshot
/// does not cover them in full.
pub open spec fn spec_read(mem: MemorySnapshot, addr: int, len: int) -> Result<
    Seq<u8>,
    ExtractError,
> {
    if mem.covers_range(addr, len) {
        Ok(mem.bytes_at(addr, len))
    } else {
        Err(ExtractError::ReadFailure)
    }
}

/// Word `i` (64-bit, little-endian) of a byte buffer.
pub open spec fn spec_word(bytes: Seq<u8>, i: int) -> u64 {
    spec_u64_from_le_bytes(bytes.subrange(8 * i, 8 * i + 8))
}

/// The index of the first zero byte, or `bytes.len()` if there is none.
pub open spec fn spec_null_index(bytes: Seq<u8>) -> int
    decreases bytes.len(),
{
    if bytes.len() == 0 {
        0
    } else if bytes[0] == 0 {
        0
    } else {
        1 + spec_null_index(bytes.drop_first())
    }
}

/// Whether the buffer holds a zero byte.
pub open spec fn spec_has_null(bytes: Seq<u8>) -> bool {
    exists|i: int| 0 <= i < bytes.len() && bytes[i] == 0
}

/// The type name found at a type object address: 32-byte header, `tp_name`
/// pointer at offset 24, then a null-terminated ASCII name of at most 100
/// bytes. A missing terminator or a non-ASCII byte is a decode failure.
pub open spec fn spec_type_name_at(mem: MemorySnapshot, type_object_address: u64) -> Result<
    Seq<char>,
    ExtractError,
> {
    match spec_read(mem, type_object_address as int, 32) {
        Err(e) => Err(e),
        Ok(hdr) => {
            let tp_name_address = spec_word(hdr, 3);
            match spec_read(mem, tp_name_address as int, 100) {
                Err(e) => Err(e),
                Ok(name_bytes) => {
                    if !spec_has_null(name_bytes) {
                        Err(ExtractError::DecodeFailure)
                    } else {
                        let prefix = name_bytes.subrange(0, spec_null_index(name_bytes));
                        if !spec_all_ascii(prefix) {
                            Err(ExtractError::DecodeFailure)
                        } else {
                            Ok(spec_chars_of_bytes(prefix))
                        }
                    }
                },
            }
        },
    }
}

/// The runtime type name of the object at `object_address`: 16-byte header,
/// type pointer at offset 8, then the type object's name.
pub open spec fn spec_object_type_name_at(mem: MemorySnapshot, object_address: u64) -> Result<
    Seq<char>,
    ExtractError,
> {
    match spec_read(mem, object_address as int, 16) {
        Err(e) => Err(e),
        Ok(hdr) => spec_type_name_at(mem, spec_word(hdr, 1)),
    }
}

/// The payload of a `str` object: 32-byte header, `ob_size` at offset 16,
/// bytes from offset 32 on, read byte-by-byte as ASCII-or-replacement text.
/// Rejected when the length exceeds `max_length` (if positive) or `i32::MAX`.
pub open spec fn spec_str_value(mem: MemorySnapshot, address: u64, max_length: int) -> Result<
    Seq<char>,
    ExtractError,
> {
    match spec_read(mem, address as int, 32) {
        Err(e) => Err(e),
        Ok(hdr) => {
            let ob_size = spec_word(hdr, 2);
            if (max_length > 0 && max_length < ob_size) || ob_size > i32::MAX {
                Err(ExtractError::DecodeFailure)
            } else if address + 32 > u64::MAX {
                Err(ExtractError::ReadFailure)
            } else {
                match spec_read(mem, address + 32, ob_size as int) {
                    Err(e) => Err(e),
                    Ok(bytes) => Ok(spec_chars_of_bytes(bytes)),
                }
            }
        },
    }
}

/// The payload of a `unicode` object: 32-byte header, length in units at
/// offset 16 (capped at 4096), data pointer at offset 24, `2 * length` raw
/// bytes read byte-by-byte as ASCII-or-replacement text.
pub open spec fn spec_unicode_value(mem: MemorySnapshot, address: u64) -> Result<
    Seq<char>,
    ExtractError,
> {
    match spec_read(mem, address as int, 32) {
        Err(e) => Err(e),
        Ok(hdr) => {
            let length = spec_word(hdr, 2);
            if length > 4096 {
                Err(ExtractError::DecodeFailure)
            } else {
                let data_address = spec_word(hdr, 3);
                match spec_read(mem, data_address as int, 2 * (length as int)) {
                    Err(e) => Err(e),
                    Ok(bytes) => Ok(spec_chars_of_bytes(bytes)),
                }
            }
        },
    }
}

/// The signed reading of a 64-bit word.
pub open spec fn spec_signed_of_word(w: u64) -> int {
    if w >= 0x8000000000000000 {
        w - 0x10000000000000000
    } else {
        w as int
    }
}

/// The payload of a `bool` object: 24-byte header, signed value at offset
/// 16, nonzero meaning true.
pub open spec fn spec_bool_value(mem: MemorySnapshot, address: u64) -> Result<
    bool,
    ExtractError,
> {
    match spec_read(mem, address as int, 24) {
        Err(e) => Err(e),
        Ok(hdr) => Ok(spec_word(hdr, 2) != 0),
    }
}

/// The payload of an `int` object: 24-byte header, signed 64-bit value at
/// offset 16, collapsed to 32 bits when that loses nothing.
pub open spec fn spec_int_value(mem: MemorySnapshot, address: u64) -> Result<
    IntWrapper,
    ExtractError,
> {
    match spec_read(mem, address as int, 24) {
        Err(e) => Err(e),
        Ok(hdr) => {
            let v = spec_signed_of_word(spec_word(hdr, 2));
            if i32::MIN <= v <= i32::MAX {
                Ok(IntWrapper::Int32(v as i32))
            } else {
                Ok(IntWrapper::Int64(v as i64))
            }
        },
    }
}

/// The payload of a `float` object: 32-byte header, the IEEE-754 double bits
/// at offset 16, kept raw.
pub open spec fn spec_float_bits(mem: MemorySnapshot, address: u64) -> Result<
    u64,
    ExtractError,
> {
    match spec_read(mem, address as int, 32) {
        Err(e) => Err(e),
        Ok(hdr) => Ok(spec_word(hdr, 2)),
    }
}

/// The active slots among a dictionary's slot table, in slot order: a slot
/// is active when both its key and value addresses are nonzero.
pub open spec fn spec_active_slots(slots: Seq<PyDictEntry>) -> Seq<PyDictEntry>
    decreases slots.len(),
{
    if slots.len() == 0 {
        Seq::empty()
    } else {
        let rest = spec_active_slots(slots.drop_last());
        let last = slots.last();
        if last.key != 0 && last.value != 0 {
            rest.push(last)
        } else {
            rest
        }
    }
}

/// The slot table of a dictionary object, read as hash/key/value triples.
pub open spec fn spec_slot_table(bytes: Seq<u8>, count: int) -> Seq<PyDictEntry> {
    Seq::new(
        count as nat,
        |i: int| PyDictEntry {
            hash: spec_word(bytes, 3 * i),
            key: spec_word(bytes, 3 * i + 1),
            value: spec_word(bytes, 3 * i + 2),
        },
    )
}

/// The active entries of the dictionary at `dictionary_address`: 48-byte
/// header with `ma_mask` at offset 32 and `ma_table` at offset 40; the table
/// holds `ma_mask + 1` slots of three words each. A table of more than
/// 10,000 slots is rejected as corrupt, never partially decoded.
pub open spec fn spec_dict_entries(mem: MemorySnapshot, dictionary_address: u64) -> Result<
    Seq<PyDictEntry>,
    ExtractError,
> {
    match spec_read(mem, dictionary_address as int, 48) {
        Err(e) => Err(e),
        Ok(hdr) => {
            let ma_mask = spec_word(hdr, 4);
            let ma_table = spec_word(hdr, 5);
            if ma_mask + 1 > 10000 {
                Err(ExtractError::CorruptionGuard)
            } else {
                match spec_read(mem, ma_table as int, 24 * (ma_mask + 1)) {
                    Err(e) => Err(e),
                    Ok(bytes) => Ok(
                        spec_active_slots(spec_slot_table(bytes, ma_mask as int + 1)),
                    ),
                }
            }
        },
    }
}

/// The string-keyed projection of a dictionary's active entries, in slot
/// order: each entry whose key object decodes as a bounded string
/// contributes its key text and value address; the others are dropped.
pub open spec fn spec_string_keyed(mem: MemorySnapshot, entries: Seq<PyDictEntry>) -> Seq<
    (Seq<char>, u64),
>
    decreases entries.len(),
{
    if entries.len() == 0 {
        Seq::empty()
    } else {
        let rest = spec_string_keyed(mem, entries.drop_last());
        let last = entries.last();
        match spec_str_value(mem, last.key, 4000) {
            Ok(key) => rest.push((key, last.value)),
            Err(_) => rest,
        }
    }
}

/// Reads the target's memory through a snapshot, counting every raw read it
/// issues (so a cache hit is observably read-free).
pub struct PythonMemoryReader<'a> {
    memory: &'a MemorySnapshot,
    read_count: u64,
}

impl<'a> PythonMemoryReader<'a> {
    /// The snapshot everything is decoded from.
    pub closed spec fn snapshot(self) -> MemorySnapshot {
        *self.memory
    }

    /// How many raw reads have been issued, saturating at the type's bound.
    pub closed spec fn reads(self) -> u64 {
        self.read_count
    }

    pub fn new(memory: &'a MemorySnapshot) -> (r: PythonMemoryReader<'a>)
        ensures
            r.snapshot() == *memory,
            r.reads() == 0,
    {
        PythonMemoryReader { memory, read_count: 0 }
    }

    /// The number of raw reads issued so far.
    pub fn read_count(&self) -> (r: u64)
        ensures
            r == self.reads(),
    {
        self.read_count
    }

    /// Reads exactly `size` bytes at `address` from the snapshot, or fails;
    /// counts one raw read either way.
    pub fn read_bytes(&mut self, address: u64, size: u64) -> (r: Result<Vec<u8>, ExtractError>)
        ensures
            final(self).snapshot() == old(self).snapshot(),
            final(self).reads() >= old(self).reads(),
            match r {
                Ok(v) => spec_read(old(self).snapshot(), address as int, size as int) == Ok::<
                    Seq<u8>,
                    ExtractError,
                >(v@),
                Err(e) => spec_read(old(self).snapshot(), address as int, size as int)
                    == Err::<Seq<u8>, ExtractError>(e),
            },
    {
        if self.read_count < u64::MAX {
            self.read_count = self.read_count + 1;
        }
        self.memory.read_bytes(address, size)
    }

    /// Resolves the type name stored behind a type object address.
    #[verifier::loop_isolation(false)]
    pub fn get_python_type_name_from_type_object_address(
        &mut self,
        type_object_address: u64,
    ) -> (r: Result<String, ExtractError>)
        ensures
            final(self).snapshot() == old(self).snapshot(),
            final(self).reads() >= old(self).reads(),
            match r {
                Ok(name) => spec_type_name_at(old(self).snapshot(), type_object_address) == Ok::<
                    Seq<char>,
                    ExtractError,
                >(name@),
                Err(e) => spec_type_name_at(old(self).snapshot(), type_object_address) == Err::<
                    Seq<char>,
                    ExtractError,
                >(e),
            },
    {
        let type_object_memory = match self.read_bytes(type_object_address, 32) {
            Ok(v) => v,
            Err(e) => {
                return Err(e);
            },
        };
        let tp_name_address = u64_from_le_bytes(
            slice_subrange(type_object_memory.as_slice(), 24, 32),
        );
        proof {
            assert(type_object_memory@.subrange(24, 32) =~= type_object_memory@.subrange(8int * 3, 8int * 3 + 8));
            assert(tp_name_address == spec_word(type_object_memory@, 3));
        }
        let name_bytes = match self.read_bytes(tp_name_address, 100) {
            Ok(v) => v,
            Err(e) => {
                return Err(e);
            },
        };
        let n = name_bytes.len();
        let ghost saved = *self;
        let mut null_index: usize = 0;
        while null_index < n && *vstd::slice::slice_index_get(
            name_bytes.as_slice(),
            null_index,
        ) != 0
            invariant
                *self == saved,
                self.snapshot() == old(self).snapshot(),
                self.reads() >= old(self).reads(),
                n == name_bytes@.len(),
                0 <= null_index <= n,
                forall|k: int| 0 <= k < null_index ==> name_bytes@[k] != 0,
            decreases n - null_index,
        {
            null_index = null_index + 1;
        }
        if null_index == n {
            proof {
                assert(!spec_has_null(name_bytes@));
            }
            return Err(ExtractError::DecodeFailure);
        }
        proof {
            lemma_null_index_first(name_bytes@, null_index as int);
        }
        let mut i: usize = 0;
        while i < null_index
            invariant
                *self == saved,
                self.snapshot() == old(self).snapshot(),
                self.reads() >= old(self).reads(),
                n == name_bytes@.len(),
                0 <= i <= null_index < n,
                spec_null_index(name_bytes@) == null_index,
                forall|k: int| 0 <= k < i ==> name_bytes@[k] < 128,
            decreases null_index - i,
        {
            if name_bytes[i] >= 128 {
                proof {
                    let prefix = name_bytes@.subrange(0, spec_null_index(name_bytes@));
                    assert(prefix[i as int] == name_bytes@[i as int]);
                    assert(!spec_all_ascii(prefix));
                }
                return Err(ExtractError::DecodeFailure);
            }
            i = i + 1;
        }
        let prefix_slice = slice_subrange(name_bytes.as_slice(), 0, null_index);
        let name = string_from_bytes_lossy(prefix_slice);
        proof {
            let prefix = name_bytes@.subrange(0, spec_null_index(name_bytes@));
            assert(spec_all_ascii(prefix)) by {
                assert(forall|k: int|
                    0 <= k < prefix.len() ==> prefix[k] == (#[trigger] name_bytes@[k]));
            }
            assert(name@ == spec_chars_of_bytes(prefix));
        }
        Ok(name)
    }

    /// Resolves the runtime type name of the object at `object_address`,
    /// through the cache: a hit issues no raw read, a successful miss is
    /// stored for later calls.
    pub fn get_python_type_name_from_object_address(
        &mut self,
        object_address: u64,
        memory_reading_cache: &mut MemoryReadingCache,
    ) -> (r: Result<String, ExtractError>)
        requires
            type_name_cache_coherent(*old(memory_reading_cache), old(self).snapshot()),
        ensures
            final(self).snapshot() == old(self).snapshot(),
            final(self).reads() >= old(self).reads(),
            type_name_cache_coherent(*final(memory_reading_cache), old(self).snapshot()),
            final(memory_reading_cache).string_values() == old(
                memory_reading_cache,
            ).string_values(),
            final(memory_reading_cache).value_representations() == old(
                memory_reading_cache,
            ).value_representations(),
            match r {
                Ok(name) => spec_object_type_name_at(old(self).snapshot(), object_address)
                    == Ok::<Seq<char>, ExtractError>(name@),
                Err(e) => spec_object_type_name_at(old(self).snapshot(), object_address)
                    == Err::<Seq<char>, ExtractError>(e),
            },
            old(memory_reading_cache).type_names().contains_key(object_address)
                ==> final(self).reads() == old(self).reads(),
            r is Ok ==> final(memory_reading_cache).type_names().contains_key(object_address),
    {
        match memory_reading_cache.get_python_type_name_from_python_object_address(
            object_address,
        ) {
            Some(name) => {
                return Ok(name);
            },
            None => {},
        }
        let object_memory = match self.read_bytes(object_address, 16) {
            Ok(v) => v,
            Err(e) => {
                return Err(e);
            },
        };
        let type_object_address = u64_from_le_bytes(slice_subrange(object_memory.as_slice(), 8, 16));
        proof {
            assert(object_memory@.subrange(8, 16) =~= object_memory@.subrange(8int * 1, 8int * 1 + 8));
            assert(type_object_address == spec_word(object_memory@, 1));
        }
        match self.get_python_type_name_from_type_object_address(type_object_address) {
            Ok(name) => {
                memory_reading_cache.insert_python_type_name(object_address, name.clone());
                Ok(name)
            },
            Err(e) => Err(e),
        }
    }

    /// Resolves the runtime type name of the object at `object_address`;
    /// the same resolution as
    /// [`Self::get_python_type_name_from_object_address`].
    pub fn get_python_type_name_from_python_object_address(
        &mut self,
        object_address: u64,
        memory_reading_cache: &mut MemoryReadingCache,
    ) -> (r: Result<String, ExtractError>)
        requires
            type_name_cache_coherent(*old(memory_reading_cache), old(self).snapshot()),
        ensures
            final(self).snapshot() == old(self).snapshot(),
            final(self).reads() >= old(self).reads(),
            type_name_cache_coherent(*final(memory_reading_cache), old(self).snapshot()),
            final(memory_reading_cache).string_values() == old(
                memory_reading_cache,
            ).string_values(),
            final(memory_reading_cache).value_representations() == old(
                memory_reading_cache,
            ).value_representations(),
            match r {
                Ok(name) => spec_object_type_name_at(old(self).snapshot(), object_address)
                    == Ok::<Seq<char>, ExtractError>(name@),
                Err(e) => spec_object_type_name_at(old(self).snapshot(), object_address)
                    == Err::<Seq<char>, ExtractError>(e),
            },
            old(memory_reading_cache).type_names().contains_key(object_address)
                ==> final(self).reads() == old(self).reads(),
            r is Ok ==> final(memory_reading_cache).type_names().contains_key(object_address),
    {
        self.get_python_type_name_from_object_address(object_address, memory_reading_cache)
    }

    /// Decodes a `str` object's payload, rejecting payloads longer than
    /// `max_length` (when positive) or `i32::MAX`.
    pub fn read_python_string_value(
        &mut self,
        string_object_address: u64,
        max_length: i32,
    ) -> (r: Result<String, ExtractError>)
        ensures
            final(self).snapshot() == old(self).snapshot(),
            final(self).reads() >= old(self).reads(),
            match r {
                Ok(s) => spec_str_value(
                    old(self).snapshot(),
                    string_object_address,
                    max_length as int,
                ) == Ok::<Seq<char>, ExtractError>(s@),
                Err(e) => spec_str_value(
                    old(self).snapshot(),
                    string_object_address,
                    max_length as int,
                ) == Err::<Seq<char>, ExtractError>(e),
            },
    {
        let string_object_memory = match self.read_bytes(string_object_address, 32) {
            Ok(v) => v,
            Err(e) => {
                return Err(e);
            },
        };
        let ob_size = u64_from_le_bytes(slice_subrange(string_object_memory.as_slice(), 16, 24));
        proof {
            assert(string_object_memory@.subrange(16, 24) =~= string_object_memory@.subrange(8int * 2, 8int * 2 + 8));
            assert(ob_size == spec_word(string_object_memory@, 2));
        }
        if (max_length > 0 && (max_length as u64) < ob_size) || ob_size > i32::MAX as u64 {
            return Err(ExtractError::DecodeFailure);
        }
        let bytes_start = match string_object_address.checked_add(32) {
            Some(s) => s,
            None => {
                return Err(ExtractError::ReadFailure);
            },
        };
        let string_bytes = match self.read_bytes(bytes_start, ob_size) {
            Ok(v) => v,
            Err(e) => {
                return Err(e);
            },
        };
        Ok(string_from_bytes_lossy(string_bytes.as_slice()))
    }

    /// Decodes a `str` object's payload, capped at 4000 bytes, through the
    /// cache: a hit issues no raw read, a successful miss is stored.
    pub fn read_python_string_value_max_length_4000(
        &mut self,
        str_object_address: u64,
        cache: &mut MemoryReadingCache,
    ) -> (r: Result<String, ExtractError>)
        requires
            string_cache_coherent(*old(cache), old(self).snapshot()),
        ensures
            final(self).snapshot() == old(self).snapshot(),
            final(self).reads() >= old(self).reads(),
            string_cache_coherent(*final(cache), old(self).snapshot()),
            final(cache).type_names() == old(cache).type_names(),
            final(cache).value_representations() == old(cache).value_representations(),
            match r {
                Ok(s) => spec_str_value(old(self).snapshot(), str_object_address, 4000) == Ok::<
                    Seq<char>,
                    ExtractError,
                >(s@),
                Err(e) => spec_str_value(old(self).snapshot(), str_object_address, 4000)
                    == Err::<Seq<char>, ExtractError>(e),
            },
            old(cache).string_values().contains_key(str_object_address) ==> final(self).reads()
                == old(self).reads(),
            r is Ok ==> final(cache).string_values().contains_key(str_object_address),
    {
        match cache.get_python_string_value_max_length_4000(str_object_address) {
            Some(value) => {
                return Ok(value);
            },
            None => {},
        }
        match self.read_python_string_value(str_object_address, 4000) {
            Ok(value) => {
                cache.insert_python_string_value(str_object_address, value.clone());
                Ok(value)
            },
            Err(e) => Err(e),
        }
    }

    /// Decodes a `unicode` object's payload: at most 4096 length units, two
    /// raw bytes per unit.
    pub fn reading_from_python_type_unicode(&mut self, address: u64) -> (r: Result<
        String,
        ExtractError,
    >)
        ensures
            final(self).snapshot() == old(self).snapshot(),
            final(self).reads() >= old(self).reads(),
            match r {
                Ok(s) => spec_unicode_value(old(self).snapshot(), address) == Ok::<
                    Seq<char>,
                    ExtractError,
                >(s@),
                Err(e) => spec_unicode_value(old(self).snapshot(), address) == Err::<
                    Seq<char>,
                    ExtractError,
                >(e),
            },
    {
        let python_object_memory = match self.read_bytes(address, 32) {
            Ok(v) => v,
            Err(e) => {
                return Err(e);
            },
        };
        let unicode_string_length = u64_from_le_bytes(
            slice_subrange(python_object_memory.as_slice(), 16, 24),
        );
        proof {
            assert(python_object_memory@.subrange(16, 24) =~= python_object_memory@.subrange(8int * 2, 8int * 2 + 8));
            assert(unicode_string_length == spec_word(python_object_memory@, 2));
        }
        if unicode_string_length > 4096 {
            return Err(ExtractError::DecodeFailure);
        }
        let string_start_address = u64_from_le_bytes(
            slice_subrange(python_object_memory.as_slice(), 24, 32),
        );
        proof {
            assert(python_object_memory@.subrange(24, 32) =~= python_object_memory@.subrange(8int * 3, 8int * 3 + 8));
            assert(string_start_address == spec_word(python_object_memory@, 3));
        }
        let string_bytes = match self.read_bytes(string_start_address, 2 * unicode_string_length) {
            Ok(v) => v,
            Err(e) => {
                return Err(e);
            },
        };
        Ok(string_from_bytes_lossy(string_bytes.as_slice()))
    }

    /// Decodes a `bool` object's payload: nonzero stored value means true.
    pub fn reading_from_python_type_bool(&mut self, address: u64) -> (r: Result<
        bool,
        ExtractError,
    >)
        ensures
            final(self).snapshot() == old(self).snapshot(),
            final(self).reads() >= old(self).reads(),
            match r {
                Ok(b) => spec_bool_value(old(self).snapshot(), address) == Ok::<
                    bool,
                    ExtractError,
                >(b),
                Err(e) => spec_bool_value(old(self).snapshot(), address) == Err::<
                    bool,
                    ExtractError,
                >(e),
            },
    {
        let python_object_memory = match self.read_bytes(address, 24) {
            Ok(v) => v,
            Err(e) => {
                return Err(e);
            },
        };
        let boolean_word = u64_from_le_bytes(
            slice_subrange(python_object_memory.as_slice(), 16, 24),
        );
        proof {
            assert(python_object_memory@.subrange(16, 24) =~= python_object_memory@.subrange(8int * 2, 8int * 2 + 8));
            assert(boolean_word == spec_word(python_object_memory@, 2));
        }
        Ok(boolean_word != 0)
    }

    /// Decodes an `int` object's payload, collapsing to 32 bits when that
    /// loses nothing.
    pub fn reading_from_python_type_int(&mut self, address: u64) -> (r: Result<
        IntWrapper,
        ExtractError,
    >)
        ensures
            final(self).snapshot() == old(self).snapshot(),
            final(self).reads() >= old(self).reads(),
            match r {
                Ok(v) => spec_int_value(old(self).snapshot(), address) == Ok::<
                    IntWrapper,
                    ExtractError,
                >(v),
                Err(e) => spec_int_value(old(self).snapshot(), address) == Err::<
                    IntWrapper,
                    ExtractError,
                >(e),
            },
    {
        let python_object_memory = match self.read_bytes(address, 24) {
            Ok(v) => v,
            Err(e) => {
                return Err(e);
            },
        };
        let int_word = u64_from_le_bytes(slice_subrange(python_object_memory.as_slice(), 16, 24));
        proof {
            assert(python_object_memory@.subrange(16, 24) =~= python_object_memory@.subrange(8int * 2, 8int * 2 + 8));
            assert(int_word == spec_word(python_object_memory@, 2));
        }
        let int_value = i64_from_word(int_word);
        if i32::MIN as i64 <= int_value && int_value <= i32::MAX as i64 {
            Ok(IntWrapper::new_from_i32(int_value as i32))
        } else {
            Ok(IntWrapper::new_from_i64(int_value))
        }
    }

    /// Decodes a `float` object's payload, as its raw IEEE-754 double bits.
    pub fn read_python_float_object_value(&mut self, float_object_address: u64) -> (r: Result<
        u64,
        ExtractError,
    >)
        ensures
            final(self).snapshot() == old(self).snapshot(),
            final(self).reads() >= old(self).reads(),
            match r {
                Ok(bits) => spec_float_bits(old(self).snapshot(), float_object_address) == Ok::<
                    u64,
                    ExtractError,
                >(bits),
                Err(e) => spec_float_bits(old(self).snapshot(), float_object_address) == Err::<
                    u64,
                    ExtractError,
                >(e),
            },
    {
        let python_object_memory = match self.read_bytes(float_object_address, 32) {
            Ok(v) => v,
            Err(e) => {
                return Err(e);
            },
        };
        let bits = u64_from_le_bytes(slice_subrange(python_object_memory.as_slice(), 16, 24));
        proof {
            assert(python_object_memory@.subrange(16, 24) =~= python_object_memory@.subrange(8int * 2, 8int * 2 + 8));
            assert(bits == spec_word(python_object_memory@, 2));
        }
        Ok(bits)
    }

    /// Decodes the active entries of the dictionary at `dictionary_address`:
    /// either the full list of active slots in slot order, or a failure —
    /// never a partial table.
    pub fn read_active_dictionary_entries_from_dictionary_address(
        &mut self,
        dictionary_address: u64,
    ) -> (r: Result<Vec<PyDictEntry>, ExtractError>)
        ensures
            final(self).snapshot() == old(self).snapshot(),
            final(self).reads() >= old(self).reads(),
            match r {
                Ok(entries) => spec_dict_entries(old(self).snapshot(), dictionary_address)
                    == Ok::<Seq<PyDictEntry>, ExtractError>(entries@),
                Err(e) => spec_dict_entries(old(self).snapshot(), dictionary_address) == Err::<
                    Seq<PyDictEntry>,
                    ExtractError,
                >(e),
            },
    {
        let dict_memory = match self.read_bytes(dictionary_address, 48) {
            Ok(v) => v,
            Err(e) => {
                return Err(e);
            },
        };
        let ma_mask = u64_from_le_bytes(slice_subrange(dict_memory.as_slice(), 32, 40));
        let ma_table = u64_from_le_bytes(slice_subrange(dict_memory.as_slice(), 40, 48));
        proof {
            assert(dict_memory@.subrange(32, 40) =~= dict_memory@.subrange(8int * 4, 8int * 4 + 8));
            assert(dict_memory@.subrange(40, 48) =~= dict_memory@.subrange(8int * 5, 8int * 5 + 8));
            assert(ma_mask == spec_word(dict_memory@, 4));
            assert(ma_table == spec_word(dict_memory@, 5));
        }
        if ma_mask > 9999 {
            return Err(ExtractError::CorruptionGuard);
        }
        let number_of_slots = ma_mask + 1;
        let slots_memory_size = number_of_slots * 24;
        let slots_memory = match self.read_bytes(ma_table, slots_memory_size) {
            Ok(v) => v,
            Err(e) => {
                return Err(e);
            },
        };
        let words = crate::memory::transform_memory_content_as_ulong_memory(
            slots_memory.as_slice(),
        );
        let ghost table = spec_slot_table(slots_memory@, number_of_slots as int);
        proof {
            assert(words@.len() == 3 * number_of_slots);
        }
        let mut entries: Vec<PyDictEntry> = Vec::new();
        let ghost saved = *self;
        let slot_total = number_of_slots as usize;
        let mut slot_index: usize = 0;
        while slot_index < slot_total
            invariant
                *self == saved,
                self.snapshot() == old(self).snapshot(),
                self.reads() >= old(self).reads(),
                slot_total == number_of_slots,
                number_of_slots <= 10000,
                words@.len() == 3 * number_of_slots,
                words@ == spec_words_of_bytes(slots_memory@),
                table == spec_slot_table(slots_memory@, number_of_slots as int),
                0 <= slot_index <= slot_total,
                entries@ == spec_active_slots(table.subrange(0, slot_index as int)),
            decreases slot_total - slot_index,
        {
            let hash = words[slot_index * 3];
            let key = words[slot_index * 3 + 1];
            let value = words[slot_index * 3 + 2];
            proof {
                assert(table[slot_index as int] == (PyDictEntry { hash, key, value }));
                assert(table.subrange(0, slot_index + 1).drop_last() =~= table.subrange(
                    0,
                    slot_index as int,
                ));
                assert(table.subrange(0, slot_index + 1).last() == table[slot_index as int]);
            }
            if key != 0 && value != 0 {
                entries.push(PyDictEntry { hash, key, value });
            }
            slot_index = slot_index + 1;
        }
        proof {
            assert(table.subrange(0, slot_total as int) =~= table);
        }
        Ok(entries)
    }

    /// Resolves the string-keyed projection of a dictionary: each active
    /// entry whose key decodes as a bounded string contributes its key text
    /// and value address, in slot order. A dictionary that does not decode
    /// yields the empty list.
    pub fn get_dictionary_entries_with_string_keys(
        &mut self,
        dictionary_object_address: u64,
        cache: &mut MemoryReadingCache,
    ) -> (r: Vec<KeyedAddress>)
        requires
            string_cache_coherent(*old(cache), old(self).snapshot()),
        ensures
            final(self).snapshot() == old(self).snapshot(),
            final(self).reads() >= old(self).reads(),
            string_cache_coherent(*final(cache), old(self).snapshot()),
            final(cache).type_names() == old(cache).type_names(),
            final(cache).value_representations() == old(cache).value_representations(),
            match spec_dict_entries(old(self).snapshot(), dictionary_object_address) {
                Ok(entries) => spec_keyed_view(r@) == spec_string_keyed(
                    old(self).snapshot(),
                    entries,
                ),
                Err(_) => r@.len() == 0,
            },
    {
        let dictionary_entries = match self.read_active_dictionary_entries_from_dictionary_address(
            dictionary_object_address,
        ) {
            Ok(entries) => entries,
            Err(_) => {
                return Vec::new();
            },
        };
        let ghost mem = self.snapshot();
        let mut result: Vec<KeyedAddress> = Vec::new();
        let n = dictionary_entries.len();
        let mut i: usize = 0;
        while i < n
            invariant
                n == dictionary_entries@.len(),
                0 <= i <= n,
                mem == self.snapshot(),
                string_cache_coherent(*cache, mem),
                cache.type_names() == old(cache).type_names(),
                cache.value_representations() == old(cache).value_representations(),
                self.reads() >= old(self).reads(),
                spec_keyed_view(result@) == spec_string_keyed(
                    mem,
                    dictionary_entries@.subrange(0, i as int),
                ),
            decreases n - i,
        {
            let entry = dictionary_entries[i];
            proof {
                assert(dictionary_entries@.subrange(0, i + 1).drop_last()
                    =~= dictionary_entries@.subrange(0, i as int));
                assert(dictionary_entries@.subrange(0, i + 1).last() == entry);
            }
            match self.read_python_string_value_max_length_4000(entry.key, cache) {
                Ok(key) => {
                    result.push(KeyedAddress { key, address: entry.value });
                    proof {
                        assert(spec_keyed_view(result@) =~= spec_string_keyed(
                            mem,
                            dictionary_entries@.subrange(0, i + 1),
                        ));
                    }
                },
                Err(_) => {},
            }
            i = i + 1;
        }
        proof {
            assert(dictionary_entries@.subrange(0, n as int) =~= dictionary_entries@);
        }
        result
    }
}

/// The key texts and value addresses held by a keyed-address list.
pub open spec fn spec_keyed_view(s: Seq<KeyedAddress>) -> Seq<(Seq<char>, u64)> {
    Seq::new(s.len(), |i: int| (s[i].key@, s[i].address))
}

/// Every cached type name is what the snapshot decodes for its address.
pub open spec fn type_name_cache_coherent(
    cache: MemoryReadingCache,
    mem: MemorySnapshot,
) -> bool {
    forall|a: u64|
        #[trigger] cache.type_names().contains_key(a) ==> spec_object_type_name_at(mem, a)
            == Ok::<Seq<char>, ExtractError>(cache.type_names()[a]@)
}

/// Every cached bounded string is what the snapshot decodes for its address.
pub open spec fn string_cache_coherent(cache: MemoryReadingCache, mem: MemorySnapshot) -> bool {
    forall|a: u64|
        #[trigger] cache.string_values().contains_key(a) ==> spec_str_value(mem, a, 4000)
            == Ok::<Seq<char>, ExtractError>(cache.string_values()[a]@)
}

/// The signed reading of a 64-bit word, as an `i64` value.
fn i64_from_word(w: u64) -> (r: i64)
    ensures
        r as int == spec_signed_of_word(w),
{
    if w >= 0x8000000000000000 {
        let magnitude = u64::MAX - w;
        -(magnitude as i64) - 1
    } else {
        w as i64
    }
}

/// When the first `i` bytes are nonzero and byte `i` is zero, the first-null
/// index is `i`.
pub proof fn lemma_null_index_first(bytes: Seq<u8>, i: int)
    requires
        0 <= i < bytes.len(),
        bytes[i] == 0,
        forall|j: int| 0 <= j < i ==> bytes[j] != 0,
    ensures
        spec_null_index(bytes) == i,
        spec_has_null(bytes),
    decreases i,
{
    if i > 0 {
        lemma_null_index_first(bytes.drop_first(), i - 1);
    }
}

} // verus!
