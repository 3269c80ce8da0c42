//! The fixed per-type decode table: dispatching an object address to the
//! specialized decoder for its runtime type name, with a generic fallback
//! that never aborts the surrounding walk.

use vstd::prelude::*;
use vstd::bytes::u64_from_le_bytes;
use vstd::slice::slice_subrange;
use crate::errors::ExtractError;
use crate::memory::MemorySnapshot;
use crate::memory_reading_cache::MemoryReadingCache;
use crate::python_memory_reader::PythonMemoryReader;
use crate::python_memory_reader::KeyedAddress;
use crate::python_memory_reader::spec_read;
use crate::python_memory_reader::spec_word;
use crate::python_memory_reader::spec_str_value;
use crate::python_memory_reader::spec_unicode_value;
use crate::python_memory_reader::spec_bool_value;
use crate::python_memory_reader::spec_int_value;
use crate::python_memory_reader::spec_float_bits;
use crate::python_memory_reader::spec_dict_entries;
use crate::python_memory_reader::spec_string_keyed;
use crate::python_memory_reader::spec_keyed_view;
use crate::python_memory_reader::spec_object_type_name_at;
use crate::python_memory_reader::type_name_cache_coherent;
use crate::python_memory_reader::string_cache_coherent;
use crate::values::DecodedValue;
use crate::values::DictEntry;
use crate::values::DictEntryValueGenericRepresentation;
use crate::values::Bunch;
use crate::values::ColorComponents;
use crate::values::ValueView;
use crate::values::EntryView;
use crate::values::view_of_value;
use crate::values::view_of_entries;
use crate::values::str_eq;
use crate::ui_tree_node::UiTreeNode;
use crate::ui_tree_node::NodeView;
use crate::ui_tree_node::view_of_node;
use crate::float_bits::spec_scaled_255;
use crate::float_bits::scaled_255_from_float_bits;

verus! {

/// How deep nested `Bunch` and `Link` values are followed before the decoder
/// falls back to the generic representation: a guard against reference
/// cycles in the foreign heap.
pub const VALUE_DECODE_MAX_DEPTH: u64 = 8;

/// The property names worth decoding; every other key is recorded by name
/// only.
pub open spec fn spec_is_key_of_interest(k: Seq<char>) -> bool {
    ||| k == "_top"@
    ||| k == "_left"@
    ||| k == "_width"@
    ||| k == "_height"@
    ||| k == "_displayX"@
    ||| k == "_displayY"@
    ||| k == "_displayHeight"@
    ||| k == "_displayWidth"@
    ||| k == "_name"@
    ||| k == "_text"@
    ||| k == "_setText"@
    ||| k == "children"@
    ||| k == "texturePath"@
    ||| k == "_bgTexturePath"@
    ||| k == "_hint"@
    ||| k == "_display"@
    ||| k == "lastShield"@
    ||| k == "lastArmor"@
    ||| k == "lastStructure"@
    ||| k == "_lastValue"@
    ||| k == "ramp_active"@
    ||| k == "_rotation"@
    ||| k == "_color"@
    ||| k == "_sr"@
    ||| k == "htmlstr"@
    ||| k == "_texturePath"@
    ||| k == "_opacity"@
    ||| k == "_bgColor"@
    ||| k == "isExpanded"@
}

/// The string-keyed projection of the dictionary at `dict_addr`, or the
/// empty list when the dictionary does not decode.
pub open spec fn spec_keyed_entries_at(mem: MemorySnapshot, dict_addr: u64) -> Seq<
    (Seq<char>, u64),
> {
    match spec_dict_entries(mem, dict_addr) {
        Ok(entries) => spec_string_keyed(mem, entries),
        Err(_) => Seq::empty(),
    }
}

/// The value address of the first entry keyed `k`, if any.
pub open spec fn spec_keyed_lookup(s: Seq<(Seq<char>, u64)>, k: Seq<char>) -> Option<u64>
    decreases s.len(),
{
    if s.len() == 0 {
        None
    } else if s[0].0 == k {
        Some(s[0].1)
    } else {
        spec_keyed_lookup(s.drop_first(), k)
    }
}

/// The color components of the `PyColor` object at `address`: its dictionary
/// reference at offset 16 is resolved, and the `_a`/`_r`/`_g`/`_b` entries
/// are read as floats and scaled to 8-bit-percent components. `None` when
/// the dictionary is empty, lacks all four channel keys, lacks any one of
/// them, or a channel fails to read.
pub open spec fn spec_color_components(mem: MemorySnapshot, address: u64) -> Option<
    ColorComponents,
> {
    match spec_read(mem, address as int, 24) {
        Err(_) => None,
        Ok(hdr) => {
            let keyed = spec_keyed_entries_at(mem, spec_word(hdr, 2));
            if keyed.len() == 0 {
                None
            } else if spec_keyed_lookup(keyed, "_r"@) is None && spec_keyed_lookup(keyed, "_g"@)
                is None && spec_keyed_lookup(keyed, "_b"@) is None && spec_keyed_lookup(
                keyed,
                "_a"@,
            ) is None {
                None
            } else {
                match (
                    spec_keyed_lookup(keyed, "_a"@),
                    spec_keyed_lookup(keyed, "_r"@),
                    spec_keyed_lookup(keyed, "_g"@),
                    spec_keyed_lookup(keyed, "_b"@),
                ) {
                    (Some(a), Some(r), Some(g), Some(b)) => {
                        match (
                            spec_float_bits(mem, a),
                            spec_float_bits(mem, r),
                            spec_float_bits(mem, g),
                            spec_float_bits(mem, b),
                        ) {
                            (Ok(ba), Ok(br), Ok(bg), Ok(bb)) => Some(
                                ColorComponents {
                                    alpha: spec_scaled_255(ba) as i32,
                                    red: spec_scaled_255(br) as i32,
                                    green: spec_scaled_255(bg) as i32,
                                    blue: spec_scaled_255(bb) as i32,
                                },
                            ),
                            _ => None,
                        }
                    },
                    _ => None,
                }
            }
        },
    }
}

/// The decoded representation of the object at `address`: the specialized
/// decoder for its runtime type name when one exists and succeeds, else the
/// generic address-plus-type-name fallback.
pub open spec fn spec_value_representation_at(
    mem: MemorySnapshot,
    address: u64,
    depth: nat,
) -> ValueView
    decreases depth, 1int, 0int,
{
    match spec_object_type_name_at(mem, address) {
        Err(_) => ValueView::Generic(address, None),
        Ok(name) => match spec_specialized(mem, address, name, depth) {
            Some(v) => v,
            None => ValueView::Generic(address, Some(name)),
        },
    }
}

/// The specialized decode of the object at `address` under type name
/// `name`: `None` when no decoder handles the name or the decoder fails.
pub open spec fn spec_specialized(
    mem: MemorySnapshot,
    address: u64,
    name: Seq<char>,
    depth: nat,
) -> Option<ValueView>
    decreases depth, 0int, 0int,
{
    if name == "str"@ {
        match spec_str_value(mem, address, 0x1000) {
            Ok(s) => Some(ValueView::Str(s)),
            Err(_) => None,
        }
    } else if name == "unicode"@ {
        match spec_unicode_value(mem, address) {
            Ok(s) => Some(ValueView::Str(s)),
            Err(_) => None,
        }
    } else if name == "int"@ {
        match spec_int_value(mem, address) {
            Ok(v) => Some(ValueView::Int(v)),
            Err(_) => None,
        }
    } else if name == "bool"@ {
        match spec_bool_value(mem, address) {
            Ok(b) => Some(ValueView::Bool(b)),
            Err(_) => None,
        }
    } else if name == "float"@ {
        match spec_float_bits(mem, address) {
            Ok(bits) => Some(ValueView::Float(bits)),
            Err(_) => None,
        }
    } else if name == "PyColor"@ {
        match spec_color_components(mem, address) {
            Some(c) => Some(ValueView::Color(c)),
            None => None,
        }
    } else if name == "Bunch"@ {
        if depth == 0 {
            None
        } else {
            spec_bunch_value(mem, address, (depth - 1) as nat)
        }
    } else if name == "Link"@ {
        if depth == 0 {
            None
        } else {
            spec_link_node_value(mem, address, (depth - 1) as nat)
        }
    } else {
        None
    }
}

/// The aggregate decode of the `Bunch` object at `address`: its own
/// dictionary's string-keyed entries, filtered to the allow-list, each value
/// recursively decoded, in slot order. `None` when the dictionary yields no
/// string-keyed entries at all.
pub open spec fn spec_bunch_value(mem: MemorySnapshot, address: u64, depth: nat) -> Option<
    ValueView,
>
    decreases depth, 3int, 0int,
{
    let keyed = spec_keyed_entries_at(mem, address);
    if keyed.len() == 0 {
        None
    } else {
        Some(ValueView::Aggregate(spec_bunch_entries(mem, keyed, depth)))
    }
}

/// The allow-listed entries of a string-keyed list, each value recursively
/// decoded, in order.
pub open spec fn spec_bunch_entries(
    mem: MemorySnapshot,
    keyed: Seq<(Seq<char>, u64)>,
    depth: nat,
) -> Seq<EntryView>
    decreases depth, 2int, keyed.len(),
{
    if keyed.len() == 0 {
        Seq::empty()
    } else {
        let rest = spec_bunch_entries(mem, keyed.drop_last(), depth);
        let last = keyed.last();
        if spec_is_key_of_interest(last.0) {
            rest.push(
                EntryView { key: last.0, value: spec_value_representation_at(mem, last.1, depth) },
            )
        } else {
            rest
        }
    }
}

/// All entries of a string-keyed list, each value recursively decoded, in
/// order.
pub open spec fn spec_link_entries(
    mem: MemorySnapshot,
    keyed: Seq<(Seq<char>, u64)>,
    depth: nat,
) -> Seq<EntryView>
    decreases depth, 2int, keyed.len(),
{
    if keyed.len() == 0 {
        Seq::empty()
    } else {
        let rest = spec_link_entries(mem, keyed.drop_last(), depth);
        let last = keyed.last();
        rest.push(
            EntryView { key: last.0, value: spec_value_representation_at(mem, last.1, depth) },
        )
    }
}

/// The index of the first of the eight words whose referenced object has
/// runtime type name `dict`, scanning from `i` on; `None` if there is none.
pub open spec fn spec_first_dict_ref(mem: MemorySnapshot, words: Seq<u64>, i: int) -> Option<u64>
    decreases words.len() - i,
{
    if i < 0 || i >= words.len() {
        None
    } else if spec_object_type_name_at(mem, words[i]) == Ok::<Seq<char>, ExtractError>("dict"@) {
        Some(words[i])
    } else {
        spec_first_dict_ref(mem, words, i + 1)
    }
}

/// The childless node decoded from the `Link` object at `address`: the first
/// dictionary referenced among its eight words, decoded into string-keyed
/// entries. This first-reference rule is a heuristic of the target's layout;
/// when it finds nothing the decode falls back to the generic
/// representation.
pub open spec fn spec_link_node_value(mem: MemorySnapshot, address: u64, depth: nat) -> Option<
    ValueView,
>
    decreases depth, 3int, 0int,
{
    match spec_object_type_name_at(mem, address) {
        Err(_) => None,
        Ok(resolved_name) => match spec_read(mem, address as int, 0x40) {
            Err(_) => None,
            Ok(buf) => {
                let words = crate::memory::spec_words_of_bytes(buf);
                match spec_first_dict_ref(mem, words, 0) {
                    None => None,
                    Some(dict_ref) => {
                        let keyed = spec_keyed_entries_at(mem, dict_ref);
                        Some(
                            ValueView::Node(
                                Box::new(
                                    NodeView {
                                        object_address: address,
                                        object_type_name: resolved_name,
                                        dict_entries_of_interest: spec_link_entries(
                                            mem,
                                            keyed,
                                            depth,
                                        ),
                                        other_dict_entries_keys: Seq::empty(),
                                        children: Seq::empty(),
                                    },
                                ),
                            ),
                        )
                    },
                }
            },
        },
    }
}

/// Every cached representation is the standard-depth decode of its address.
pub open spec fn value_cache_coherent(cache: MemoryReadingCache, mem: MemorySnapshot) -> bool {
    forall|a: u64|
        #[trigger] cache.value_representations().contains_key(a)
            ==> cache.value_representations()[a] == spec_value_representation_at(
            mem,
            a,
            VALUE_DECODE_MAX_DEPTH as nat,
        )
}

/// All three caches hold only what the snapshot decodes.
pub open spec fn cache_coherent(cache: MemoryReadingCache, mem: MemorySnapshot) -> bool {
    &&& type_name_cache_coherent(cache, mem)
    &&& string_cache_coherent(cache, mem)
    &&& value_cache_coherent(cache, mem)
}

/// The decoders for the fixed set of specially-handled type names.
pub struct PythonTypeExtractor;

impl PythonTypeExtractor {
    /// Whether a property name is on the allow-list.
    pub fn is_key_of_interest(key: &str) -> (r: bool)
        ensures
            r == spec_is_key_of_interest(key@),
    {
        str_eq(key, "_top") || str_eq(key, "_left") || str_eq(key, "_width") || str_eq(
            key,
            "_height",
        ) || str_eq(key, "_displayX") || str_eq(key, "_displayY") || str_eq(key, "_displayHeight")
            || str_eq(key, "_displayWidth") || str_eq(key, "_name") || str_eq(key, "_text")
            || str_eq(key, "_setText") || str_eq(key, "children") || str_eq(key, "texturePath")
            || str_eq(key, "_bgTexturePath") || str_eq(key, "_hint") || str_eq(key, "_display")
            || str_eq(key, "lastShield") || str_eq(key, "lastArmor") || str_eq(
            key,
            "lastStructure",
        ) || str_eq(key, "_lastValue") || str_eq(key, "ramp_active") || str_eq(key, "_rotation")
            || str_eq(key, "_color") || str_eq(key, "_sr") || str_eq(key, "htmlstr") || str_eq(
            key,
            "_texturePath",
        ) || str_eq(key, "_opacity") || str_eq(key, "_bgColor") || str_eq(key, "isExpanded")
    }

    /// Runs the specialized decoder for `value_python_type` on the object at
    /// `address`: succeeds exactly when a decoder handles the name and its
    /// decode goes through.
    pub fn specialized_reading_from_python_type(
        memory_reader: &mut PythonMemoryReader<'_>,
        address: u64,
        value_python_type: &str,
        memory_reading_cache: &mut MemoryReadingCache,
    ) -> (r: Result<DecodedValue, ExtractError>)
        requires
            type_name_cache_coherent(*old(memory_reading_cache), old(memory_reader).snapshot()),
            string_cache_coherent(*old(memory_reading_cache), old(memory_reader).snapshot()),
        ensures
            final(memory_reader).snapshot() == old(memory_reader).snapshot(),
            final(memory_reader).reads() >= old(memory_reader).reads(),
            type_name_cache_coherent(*final(memory_reading_cache), old(memory_reader).snapshot()),
            string_cache_coherent(*final(memory_reading_cache), old(memory_reader).snapshot()),
            final(memory_reading_cache).value_representations() == old(
                memory_reading_cache,
            ).value_representations(),
            match spec_specialized(
                old(memory_reader).snapshot(),
                address,
                value_python_type@,
                VALUE_DECODE_MAX_DEPTH as nat,
            ) {
                Some(v) => r matches Ok(decoded) && view_of_value(decoded) == v,
                None => r is Err,
            },
    {
        Self::specialized_rec(
            memory_reader,
            address,
            value_python_type,
            memory_reading_cache,
            VALUE_DECODE_MAX_DEPTH,
        )
    }

    /// The depth-bounded specialized decode.
    fn specialized_rec(
        memory_reader: &mut PythonMemoryReader<'_>,
        address: u64,
        value_python_type: &str,
        memory_reading_cache: &mut MemoryReadingCache,
        depth: u64,
    ) -> (r: Result<DecodedValue, ExtractError>)
        requires
            type_name_cache_coherent(*old(memory_reading_cache), old(memory_reader).snapshot()),
            string_cache_coherent(*old(memory_reading_cache), old(memory_reader).snapshot()),
        ensures
            final(memory_reader).snapshot() == old(memory_reader).snapshot(),
            final(memory_reader).reads() >= old(memory_reader).reads(),
            type_name_cache_coherent(*final(memory_reading_cache), old(memory_reader).snapshot()),
            string_cache_coherent(*final(memory_reading_cache), old(memory_reader).snapshot()),
            final(memory_reading_cache).value_representations() == old(
                memory_reading_cache,
            ).value_representations(),
            match spec_specialized(
                old(memory_reader).snapshot(),
                address,
                value_python_type@,
                depth as nat,
            ) {
                Some(v) => r matches Ok(decoded) && view_of_value(decoded) == v,
                None => r is Err,
            },
        decreases depth, 0int,
    {
        if str_eq(value_python_type, "str") {
            match memory_reader.read_python_string_value(address, 0x1000) {
                Ok(s) => Ok(DecodedValue::Str(s)),
                Err(e) => Err(e),
            }
        } else if str_eq(value_python_type, "unicode") {
            match memory_reader.reading_from_python_type_unicode(address) {
                Ok(s) => Ok(DecodedValue::Str(s)),
                Err(e) => Err(e),
            }
        } else if str_eq(value_python_type, "int") {
            match memory_reader.reading_from_python_type_int(address) {
                Ok(v) => Ok(DecodedValue::Int(v)),
                Err(e) => Err(e),
            }
        } else if str_eq(value_python_type, "bool") {
            match memory_reader.reading_from_python_type_bool(address) {
                Ok(b) => Ok(DecodedValue::Bool(b)),
                Err(e) => Err(e),
            }
        } else if str_eq(value_python_type, "float") {
            match memory_reader.read_python_float_object_value(address) {
                Ok(bits) => Ok(DecodedValue::Float(bits)),
                Err(e) => Err(e),
            }
        } else if str_eq(value_python_type, "PyColor") {
            match reading_from_python_type_pycolor(memory_reader, address, memory_reading_cache) {
                Ok(c) => Ok(DecodedValue::Color(c)),
                Err(e) => Err(e),
            }
        } else if str_eq(value_python_type, "Bunch") {
            if depth == 0 {
                Err(ExtractError::DecodeFailure)
            } else {
                match reading_from_python_type_bunch(
                    memory_reader,
                    address,
                    memory_reading_cache,
                    depth - 1,
                ) {
                    Ok(bunch) => Ok(DecodedValue::Aggregate(bunch)),
                    Err(e) => Err(e),
                }
            }
        } else if str_eq(value_python_type, "Link") {
            if depth == 0 {
                Err(ExtractError::DecodeFailure)
            } else {
                match reading_from_python_type_link(
                    memory_reader,
                    address,
                    memory_reading_cache,
                    depth - 1,
                ) {
                    Ok(node) => Ok(DecodedValue::Node(Box::new(node))),
                    Err(e) => Err(e),
                }
            }
        } else {
            Err(ExtractError::DecodeFailure)
        }
    }
}

/// The value address of the first entry keyed `key`, if any.
pub fn keyed_find(entries: &Vec<KeyedAddress>, key: &str) -> (r: Option<u64>)
    ensures
        r == spec_keyed_lookup(spec_keyed_view(entries@), key@),
{
    let n = entries.len();
    let mut i: usize = 0;
    while i < n
        invariant
            n == entries@.len(),
            0 <= i <= n,
            forall|k: int| 0 <= k < i ==> spec_keyed_view(entries@)[k].0 != key@,
        decreases n - i,
    {
        let entry = &entries[i];
        if str_eq(entry.key.as_str(), key) {
            proof {
                lemma_keyed_lookup_first(spec_keyed_view(entries@), key@, i as int);
            }
            return Some(entry.address);
        }
        i = i + 1;
    }
    proof {
        lemma_keyed_lookup_none(spec_keyed_view(entries@), key@, 0);
    }
    None
}

/// When the first `i` keys miss and key `i` hits, the lookup returns entry
/// `i`'s address.
proof fn lemma_keyed_lookup_first(s: Seq<(Seq<char>, u64)>, k: Seq<char>, i: int)
    requires
        0 <= i < s.len(),
        s[i].0 == k,
        forall|j: int| 0 <= j < i ==> (#[trigger] s[j]).0 != k,
    ensures
        spec_keyed_lookup(s, k) == Some(s[i].1),
    decreases i,
{
    if i > 0 {
        lemma_keyed_lookup_first(s.drop_first(), k, i - 1);
    }
}

/// When no key from `i` on matches, the lookup from the start misses iff the
/// earlier keys miss too; with all keys missing it returns `None`.
proof fn lemma_keyed_lookup_none(s: Seq<(Seq<char>, u64)>, k: Seq<char>, i: int)
    requires
        0 <= i <= s.len(),
        forall|j: int| 0 <= j < s.len() ==> (#[trigger] s[j]).0 != k,
    ensures
        spec_keyed_lookup(s, k) is None,
    decreases s.len(),
{
    if s.len() > 0 {
        lemma_keyed_lookup_none(s.drop_first(), k, 0);
    }
}

/// Decodes the `PyColor` object at `address`.
///
/// The dictionary referenced at offset 16 must yield string-keyed entries
/// including all of `_a`, `_r`, `_g` and `_b` (and at least one of them to
/// begin with), each reading as a float; every channel is scaled to an
/// 8-bit-percent component.
pub fn reading_from_python_type_pycolor(
    memory_reader: &mut PythonMemoryReader<'_>,
    address: u64,
    cache: &mut MemoryReadingCache,
) -> (r: Result<ColorComponents, ExtractError>)
    requires
        string_cache_coherent(*old(cache), old(memory_reader).snapshot()),
    ensures
        final(memory_reader).snapshot() == old(memory_reader).snapshot(),
        final(memory_reader).reads() >= old(memory_reader).reads(),
        string_cache_coherent(*final(cache), old(memory_reader).snapshot()),
        final(cache).type_names() == old(cache).type_names(),
        final(cache).value_representations() == old(cache).value_representations(),
        match spec_color_components(old(memory_reader).snapshot(), address) {
            Some(c) => r == Ok::<ColorComponents, ExtractError>(c),
            None => r is Err,
        },
{
    let py_color_object_memory = match memory_reader.read_bytes(address, 24) {
        Ok(v) => v,
        Err(_) => {
            return Err(ExtractError::DecodeFailure);
        },
    };
    let dictionary_address = u64_from_le_bytes(
        slice_subrange(py_color_object_memory.as_slice(), 16, 24),
    );
    proof {
        assert(py_color_object_memory@.subrange(16, 24) =~= py_color_object_memory@.subrange(
            8int * 2,
            8int * 2 + 8,
        ));
        assert(dictionary_address == spec_word(py_color_object_memory@, 2));
    }
    let dictionary_entries = memory_reader.get_dictionary_entries_with_string_keys(
        dictionary_address,
        cache,
    );
    if dictionary_entries.len() == 0 {
        return Err(ExtractError::DecodeFailure);
    }
    let r_addr = keyed_find(&dictionary_entries, "_r");
    let g_addr = keyed_find(&dictionary_entries, "_g");
    let b_addr = keyed_find(&dictionary_entries, "_b");
    let a_addr = keyed_find(&dictionary_entries, "_a");
    if r_addr.is_none() && g_addr.is_none() && b_addr.is_none() && a_addr.is_none() {
        return Err(ExtractError::DecodeFailure);
    }
    let alpha = match a_addr {
        Some(addr) => match memory_reader.read_python_float_object_value(addr) {
            Ok(bits) => scaled_255_from_float_bits(bits),
            Err(e) => {
                return Err(e);
            },
        },
        None => {
            return Err(ExtractError::NotFound);
        },
    };
    let red = match r_addr {
        Some(addr) => match memory_reader.read_python_float_object_value(addr) {
            Ok(bits) => scaled_255_from_float_bits(bits),
            Err(e) => {
                return Err(e);
            },
        },
        None => {
            return Err(ExtractError::NotFound);
        },
    };
    let green = match g_addr {
        Some(addr) => match memory_reader.read_python_float_object_value(addr) {
            Ok(bits) => scaled_255_from_float_bits(bits),
            Err(e) => {
                return Err(e);
            },
        },
        None => {
            return Err(ExtractError::NotFound);
        },
    };
    let blue = match b_addr {
        Some(addr) => match memory_reader.read_python_float_object_value(addr) {
            Ok(bits) => scaled_255_from_float_bits(bits),
            Err(e) => {
                return Err(e);
            },
        },
        None => {
            return Err(ExtractError::NotFound);
        },
    };
    Ok(ColorComponents { alpha, red, green, blue })
}

/// Decodes the `Bunch` object at `address`: its dictionary's string-keyed
/// entries filtered to the allow-list, each value recursively decoded.
pub fn reading_from_python_type_bunch(
    memory_reader: &mut PythonMemoryReader<'_>,
    address: u64,
    cache: &mut MemoryReadingCache,
    depth: u64,
) -> (r: Result<Bunch, ExtractError>)
    requires
        type_name_cache_coherent(*old(cache), old(memory_reader).snapshot()),
        string_cache_coherent(*old(cache), old(memory_reader).snapshot()),
    ensures
        final(memory_reader).snapshot() == old(memory_reader).snapshot(),
        final(memory_reader).reads() >= old(memory_reader).reads(),
        type_name_cache_coherent(*final(cache), old(memory_reader).snapshot()),
        string_cache_coherent(*final(cache), old(memory_reader).snapshot()),
        final(cache).value_representations() == old(cache).value_representations(),
        match spec_bunch_value(old(memory_reader).snapshot(), address, depth as nat) {
            Some(v) => r matches Ok(bunch) && ValueView::Aggregate(
                view_of_entries(bunch.entries_of_interest@),
            ) == v,
            None => r is Err,
        },
    decreases depth, 2int,
{
    let ghost mem = memory_reader.snapshot();
    let dictionary_entries = memory_reader.get_dictionary_entries_with_string_keys(
        address,
        cache,
    );
    if dictionary_entries.len() == 0 {
        return Err(ExtractError::DecodeFailure);
    }
    let ghost keyed = spec_keyed_view(dictionary_entries@);
    let mut entries_of_interest: Vec<DictEntry> = Vec::new();
    let n = dictionary_entries.len();
    let mut i: usize = 0;
    while i < n
        invariant
            mem == memory_reader.snapshot(),
            memory_reader.reads() >= old(memory_reader).reads(),
            type_name_cache_coherent(*cache, mem),
            string_cache_coherent(*cache, mem),
            cache.value_representations() == old(cache).value_representations(),
            n == dictionary_entries@.len(),
            keyed == spec_keyed_view(dictionary_entries@),
            keyed.len() == n,
            0 <= i <= n,
            view_of_entries(entries_of_interest@) == spec_bunch_entries(
                mem,
                keyed.subrange(0, i as int),
                depth as nat,
            ),
        decreases n - i,
    {
        let entry_key = &dictionary_entries[i];
        proof {
            assert(keyed.subrange(0, i + 1).drop_last() =~= keyed.subrange(0, i as int));
            assert(keyed.subrange(0, i + 1).last() == keyed[i as int]);
            assert(keyed[i as int] == (entry_key.key@, entry_key.address));
        }
        if PythonTypeExtractor::is_key_of_interest(entry_key.key.as_str()) {
            let key_string = entry_key.key.clone();
            let value_address = entry_key.address;
            let value = memory_reader.value_representation_rec(value_address, cache, depth);
            entries_of_interest.push(DictEntry { key: key_string, value });
            proof {
                assert(view_of_entries(entries_of_interest@) =~= spec_bunch_entries(
                    mem,
                    keyed.subrange(0, i + 1),
                    depth as nat,
                ));
            }
        }
        i = i + 1;
    }
    proof {
        assert(keyed.subrange(0, n as int) =~= keyed);
    }
    Ok(Bunch { entries_of_interest })
}

/// Decodes the `Link` object at `address` into a childless node for the
/// first dictionary referenced among its eight words.
pub fn reading_from_python_type_link(
    memory_reader: &mut PythonMemoryReader<'_>,
    address: u64,
    cache: &mut MemoryReadingCache,
    depth: u64,
) -> (r: Result<UiTreeNode, ExtractError>)
    requires
        type_name_cache_coherent(*old(cache), old(memory_reader).snapshot()),
        string_cache_coherent(*old(cache), old(memory_reader).snapshot()),
    ensures
        final(memory_reader).snapshot() == old(memory_reader).snapshot(),
        final(memory_reader).reads() >= old(memory_reader).reads(),
        type_name_cache_coherent(*final(cache), old(memory_reader).snapshot()),
        string_cache_coherent(*final(cache), old(memory_reader).snapshot()),
        final(cache).value_representations() == old(cache).value_representations(),
        match spec_link_node_value(old(memory_reader).snapshot(), address, depth as nat) {
            Some(v) => r matches Ok(node) && ValueView::Node(Box::new(view_of_node(node))) == v,
            None => r is Err,
        },
    decreases depth, 2int,
{
    let ghost mem = memory_reader.snapshot();
    let python_object_type_name = match memory_reader.get_python_type_name_from_python_object_address(
        address,
        cache,
    ) {
        Ok(name) => name,
        Err(e) => {
            return Err(e);
        },
    };
    let link_memory = match memory_reader.read_bytes(address, 0x40) {
        Ok(v) => v,
        Err(e) => {
            return Err(e);
        },
    };
    let words = crate::memory::transform_memory_content_as_ulong_memory(link_memory.as_slice());
    let word_count = words.len();
    proof {
        assert(word_count == 8);
    }
    let mut first_dict_reference: Option<u64> = None;
    let mut i: usize = 0;
    while i < word_count && first_dict_reference.is_none()
        invariant
            mem == memory_reader.snapshot(),
            memory_reader.reads() >= old(memory_reader).reads(),
            type_name_cache_coherent(*cache, mem),
            string_cache_coherent(*cache, mem),
            cache.value_representations() == old(cache).value_representations(),
            word_count == words@.len(),
            0 <= i <= word_count,
            match first_dict_reference {
                Some(w) => spec_first_dict_ref(mem, words@, 0) == Some(w),
                None => forall|k: int|
                    0 <= k < i ==> spec_object_type_name_at(mem, #[trigger] words@[k]) != Ok::<
                        Seq<char>,
                        ExtractError,
                    >("dict"@),
            },
        decreases word_count - i,
    {
        let reference = words[i];
        match memory_reader.get_python_type_name_from_object_address(reference, cache) {
            Ok(name) => {
                if str_eq(name.as_str(), "dict") {
                    first_dict_reference = Some(reference);
                    proof {
                        lemma_first_dict_ref_first(mem, words@, i as int);
                    }
                }
            },
            Err(_) => {},
        }
        i = i + 1;
    }
    let dict_ref = match first_dict_reference {
        Some(w) => w,
        None => {
            proof {
                lemma_first_dict_ref_none(mem, words@, 0);
            }
            return Err(ExtractError::NotFound);
        },
    };
    let dict_entries = memory_reader.get_dictionary_entries_with_string_keys(dict_ref, cache);
    let ghost keyed = spec_keyed_view(dict_entries@);
    let mut entries: Vec<DictEntry> = Vec::new();
    let n = dict_entries.len();
    let mut j: usize = 0;
    while j < n
        invariant
            mem == memory_reader.snapshot(),
            memory_reader.reads() >= old(memory_reader).reads(),
            type_name_cache_coherent(*cache, mem),
            string_cache_coherent(*cache, mem),
            cache.value_representations() == old(cache).value_representations(),
            n == dict_entries@.len(),
            keyed == spec_keyed_view(dict_entries@),
            keyed.len() == n,
            0 <= j <= n,
            view_of_entries(entries@) == spec_link_entries(
                mem,
                keyed.subrange(0, j as int),
                depth as nat,
            ),
        decreases n - j,
    {
        let entry_key = &dict_entries[j];
        proof {
            assert(keyed.subrange(0, j + 1).drop_last() =~= keyed.subrange(0, j as int));
            assert(keyed.subrange(0, j + 1).last() == keyed[j as int]);
            assert(keyed[j as int] == (entry_key.key@, entry_key.address));
        }
        let key_string = entry_key.key.clone();
        let value_address = entry_key.address;
        let value = memory_reader.value_representation_rec(value_address, cache, depth);
        entries.push(DictEntry { key: key_string, value });
        proof {
            assert(view_of_entries(entries@) =~= spec_link_entries(
                mem,
                keyed.subrange(0, j + 1),
                depth as nat,
            ));
        }
        j = j + 1;
    }
    proof {
        assert(keyed.subrange(0, n as int) =~= keyed);
    }
    let node = UiTreeNode::new(address, python_object_type_name, entries, Vec::new(), Vec::new());
    proof {
        assert(view_of_node(node).other_dict_entries_keys =~= Seq::<Seq<char>>::empty());
        assert(view_of_node(node).children =~= Seq::<NodeView>::empty());
        assert(crate::ui_tree_node::view_of_nodes(Seq::<UiTreeNode>::empty()) =~= Seq::<
            NodeView,
        >::empty());
    }
    Ok(node)
}

/// When the first `i` words are not dictionary references and word `i` is,
/// the scan finds word `i`.
proof fn lemma_first_dict_ref_first(mem: MemorySnapshot, words: Seq<u64>, i: int)
    requires
        0 <= i < words.len(),
        spec_object_type_name_at(mem, words[i]) == Ok::<Seq<char>, ExtractError>("dict"@),
        forall|j: int|
            0 <= j < i ==> spec_object_type_name_at(mem, #[trigger] words[j]) != Ok::<
                Seq<char>,
                ExtractError,
            >("dict"@),
    ensures
        spec_first_dict_ref(mem, words, 0) == Some(words[i]),
{
    lemma_first_dict_ref_step(mem, words, 0, i);
}

proof fn lemma_first_dict_ref_step(mem: MemorySnapshot, words: Seq<u64>, from: int, i: int)
    requires
        0 <= from <= i < words.len(),
        spec_object_type_name_at(mem, words[i]) == Ok::<Seq<char>, ExtractError>("dict"@),
        forall|j: int|
            from <= j < i ==> spec_object_type_name_at(mem, #[trigger] words[j]) != Ok::<
                Seq<char>,
                ExtractError,
            >("dict"@),
    ensures
        spec_first_dict_ref(mem, words, from) == Some(words[i]),
    decreases i - from,
{
    if from < i {
        lemma_first_dict_ref_step(mem, words, from + 1, i);
    }
}

/// With no dictionary reference among the words, the scan finds nothing.
proof fn lemma_first_dict_ref_none(mem: MemorySnapshot, words: Seq<u64>, from: int)
    requires
        0 <= from,
        forall|j: int|
            0 <= j < words.len() ==> spec_object_type_name_at(mem, #[trigger] words[j]) != Ok::<
                Seq<char>,
                ExtractError,
            >("dict"@),
    ensures
        spec_first_dict_ref(mem, words, from) is None,
    decreases words.len() - from,
{
    if from < words.len() {
        lemma_first_dict_ref_none(mem, words, from + 1);
    }
}

impl PythonMemoryReader<'_> {
    /// The depth-bounded decode of the object at `address`: the specialized
    /// decoder for its type when one succeeds, else the generic fallback.
    /// Never fails, and never touches the representation cache.
    pub fn value_representation_rec(
        &mut self,
        address: u64,
        memory_reading_cache: &mut MemoryReadingCache,
        depth: u64,
    ) -> (r: DecodedValue)
        requires
            type_name_cache_coherent(*old(memory_reading_cache), old(self).snapshot()),
            string_cache_coherent(*old(memory_reading_cache), old(self).snapshot()),
        ensures
            final(self).snapshot() == old(self).snapshot(),
            final(self).reads() >= old(self).reads(),
            type_name_cache_coherent(*final(memory_reading_cache), old(self).snapshot()),
            string_cache_coherent(*final(memory_reading_cache), old(self).snapshot()),
            final(memory_reading_cache).value_representations() == old(
                memory_reading_cache,
            ).value_representations(),
            view_of_value(r) == spec_value_representation_at(
                old(self).snapshot(),
                address,
                depth as nat,
            ),
        decreases depth, 1int,
    {
        let value_python_type_name = match self.get_python_type_name_from_python_object_address(
            address,
            memory_reading_cache,
        ) {
            Ok(name) => name,
            Err(_) => {
                return DecodedValue::Generic(
                    DictEntryValueGenericRepresentation {
                        address,
                        python_object_type_name: None,
                    },
                );
            },
        };
        match PythonTypeExtractor::specialized_rec(
            self,
            address,
            value_python_type_name.as_str(),
            memory_reading_cache,
            depth,
        ) {
            Ok(value) => value,
            Err(_) => DecodedValue::Generic(
                DictEntryValueGenericRepresentation {
                    address,
                    python_object_type_name: Some(value_python_type_name),
                },
            ),
        }
    }

    /// The standard-depth decode of the object at `address`, through the
    /// representation cache: a hit issues no raw read, and the decode of
    /// every address is stored after its first computation.
    pub fn get_dict_entry_value_representation(
        &mut self,
        value_object_address: u64,
        memory_reading_cache: &mut MemoryReadingCache,
    ) -> (r: DecodedValue)
        requires
            cache_coherent(*old(memory_reading_cache), old(self).snapshot()),
        ensures
            final(self).snapshot() == old(self).snapshot(),
            final(self).reads() >= old(self).reads(),
            cache_coherent(*final(memory_reading_cache), old(self).snapshot()),
            view_of_value(r) == spec_value_representation_at(
                old(self).snapshot(),
                value_object_address,
                VALUE_DECODE_MAX_DEPTH as nat,
            ),
            old(memory_reading_cache).value_representations().contains_key(value_object_address)
                ==> final(self).reads() == old(self).reads(),
            final(memory_reading_cache).value_representations().contains_key(
                value_object_address,
            ),
    {
        match memory_reading_cache.get_dict_entry_value_representation(value_object_address) {
            Some(value) => value,
            None => {
                let value = self.value_representation_rec(
                    value_object_address,
                    memory_reading_cache,
                    VALUE_DECODE_MAX_DEPTH,
                );
                memory_reading_cache.insert_dict_entry_value_representation(
                    value_object_address,
                    &value,
                );
                value
            },
        }
    }
}

} // verus!
