//! The recursive tree builder: decodes a node's dictionary of interesting
//! properties, extracts ordered child references, computes absolute display
//! regions by offset accumulation, annotates inter-sibling occlusion, and
//! classifies nodes into zones of interest — all specified exactly as a
//! function of the memory snapshot.

use vstd::prelude::*;
use vstd::bytes::u64_from_le_bytes;
use vstd::slice::slice_subrange;
use crate::errors::ExtractError;
use crate::memory::MemorySnapshot;
use crate::memory::spec_words_of_bytes;
use crate::memory_reading_cache::MemoryReadingCache;
use crate::python_memory_reader::PythonMemoryReader;
use crate::python_memory_reader::PyDictEntry;
use crate::python_memory_reader::spec_read;
use crate::python_memory_reader::spec_word;
use crate::python_memory_reader::spec_str_value;
use crate::python_memory_reader::spec_dict_entries;
use crate::python_memory_reader::spec_object_type_name_at;
use crate::python_type_extractor::PythonTypeExtractor;
use crate::python_type_extractor::VALUE_DECODE_MAX_DEPTH;
use crate::python_type_extractor::spec_value_representation_at;
use crate::python_type_extractor::spec_is_key_of_interest;
use crate::python_type_extractor::cache_coherent;
use crate::values::DecodedValue;
use crate::values::DictEntry;
use crate::values::ValueView;
use crate::values::EntryView;
use crate::values::view_of_value;
use crate::values::view_of_entries;
use crate::values::spec_entries_has_key;
use crate::values::spec_entries_lookup;
use crate::values::spec_entries_insert;
use crate::values::dict_entries_insert;
use crate::values::dict_entries_find;
use crate::values::str_eq;
use crate::ui_tree_node::UiTreeNode;
use crate::ui_tree_node::NodeView;
use crate::ui_tree_node::UITreeNodeWithDisplayRegion;
use crate::ui_tree_node::ChildWithRegion;
use crate::ui_tree_node::ChildWithoutRegion;
use crate::ui_tree_node::RegionNodeView;
use crate::ui_tree_node::view_of_node;
use crate::ui_tree_node::view_of_nodes;
use crate::ui_tree_node::view_of_strings;
use crate::ui_tree_node::view_of_region_node;
use crate::ui_tree_node::view_of_region_children;
use crate::ui_tree_node::view_of_nodes_of_children;
use crate::ui_tree_node::clone_ui_tree_node;
use crate::ui_constants::UiConstants;
use crate::ui_constants::UiZones;
use crate::ui_constants::ZonesView;
use crate::ui_constants::view_of_zones;
use crate::ui_constants::spec_zones_empty;
use crate::ui_constants::spec_zones_append;
use crate::ui_constants::spec_zones_insert;
use crate::ui_utils::UiUtils;
use crate::ui_utils::spec_fixed_number;
use crate::ui_utils::spec_node_occludes;
use crate::display_region::DisplayRegion;

verus! {

/// The node's own rectangle, present exactly when all four `_displayX`,
/// `_displayY`, `_displayWidth`, `_displayHeight` properties read as
/// integers.
pub open spec fn spec_display_region_from_entries(entries: Seq<EntryView>) -> Option<
    DisplayRegion,
> {
    match (
        spec_fixed_number(entries, "_displayX"@),
        spec_fixed_number(entries, "_displayY"@),
        spec_fixed_number(entries, "_displayWidth"@),
        spec_fixed_number(entries, "_displayHeight"@),
    ) {
        (Some(x), Some(y), Some(width), Some(height)) => Some(
            DisplayRegion { x: x as i32, y: y as i32, width: width as i32, height: height as i32 },
        ),
        _ => None,
    }
}

/// The outcome of processing a node's dictionary entries: the allow-listed
/// entries that decoded (keys unique, later slots winning) and the other key
/// names seen, in slot order.
pub struct ProcessedEntries {
    pub entries: Seq<EntryView>,
    pub other_keys: Seq<Seq<char>>,
}

/// Processes a node's active dictionary entries in slot order. Per entry:
/// the key must resolve and read as a `str` (a failure fails the node); keys
/// off the allow-list are recorded by name only; interesting values are
/// decoded, `NoneType` values are dropped, and a `_display` value other than
/// boolean true makes the whole node not visible.
pub open spec fn spec_process_entries(mem: MemorySnapshot, entries: Seq<PyDictEntry>) -> Result<
    ProcessedEntries,
    ExtractError,
>
    decreases entries.len(),
{
    if entries.len() == 0 {
        Ok(ProcessedEntries { entries: Seq::empty(), other_keys: Seq::empty() })
    } else {
        match spec_process_entries(mem, entries.drop_last()) {
            Err(e) => Err(e),
            Ok(acc) => {
                let entry = entries.last();
                match spec_object_type_name_at(mem, entry.key) {
                    Err(e) => Err(e),
                    Ok(key_type) => {
                        if key_type != "str"@ {
                            Ok(acc)
                        } else {
                            match spec_str_value(mem, entry.key, 4000) {
                                Err(e) => Err(e),
                                Ok(key) => {
                                    if !spec_is_key_of_interest(key) {
                                        Ok(
                                            ProcessedEntries {
                                                entries: acc.entries,
                                                other_keys: acc.other_keys.push(key),
                                            },
                                        )
                                    } else {
                                        let value = spec_value_representation_at(
                                            mem,
                                            entry.value,
                                            VALUE_DECODE_MAX_DEPTH as nat,
                                        );
                                        if (value matches ValueView::Generic(_, name_opt)
                                            && name_opt == Some("NoneType"@)) {
                                            Ok(acc)
                                        } else if key == "_display"@ && !(value
                                            matches ValueView::Bool(true)) {
                                            Err(ExtractError::NotVisible)
                                        } else {
                                            Ok(
                                                ProcessedEntries {
                                                    entries: spec_entries_insert(
                                                        acc.entries,
                                                        EntryView { key, value },
                                                    ),
                                                    other_keys: acc.other_keys,
                                                },
                                            )
                                        }
                                    }
                                },
                            }
                        }
                    },
                }
            },
        }
    }
}

/// Whether a dictionary slot's key matches `_childrenObjects`: its key must
/// not resolve to a non-`str` type, and must read as exactly that string.
pub open spec fn spec_matches_children_key(mem: MemorySnapshot, entry: PyDictEntry) -> bool {
    &&& !(spec_object_type_name_at(mem, entry.key) matches Ok(name) && name != "str"@)
    &&& spec_str_value(mem, entry.key, 4000) == Ok::<Seq<char>, ExtractError>("_childrenObjects"@)
}

/// The value address of the first slot keyed `_childrenObjects`, scanning
/// from `i` on.
pub open spec fn spec_find_children_objects(
    mem: MemorySnapshot,
    entries: Seq<PyDictEntry>,
    i: int,
) -> Option<u64>
    decreases entries.len() - i,
{
    if i < 0 || i >= entries.len() {
        None
    } else if spec_matches_children_key(mem, entries[i]) {
        Some(entries[i].value)
    } else {
        spec_find_children_objects(mem, entries, i + 1)
    }
}

/// The ordered child addresses of a node: the `children` entry must be
/// present as a generic reference; its object holds a dictionary address at
/// offset 16 whose `_childrenObjects` entry is a list object (32-byte
/// header, count at offset 16 capped at 4000, items pointer at offset 24) of
/// 8-byte child addresses.
pub open spec fn spec_children_addresses(mem: MemorySnapshot, entries: Seq<EntryView>) -> Result<
    Seq<u64>,
    ExtractError,
> {
    if !spec_entries_has_key(entries, "children"@) {
        Err(ExtractError::NotFound)
    } else {
        match spec_entries_lookup(entries, "children"@) {
            ValueView::Generic(children_entry_object_address, _) => {
                match spec_read(mem, children_entry_object_address as int, 0x18) {
                    Err(e) => Err(e),
                    Ok(hdr) => {
                        let py_children_dict_address = spec_word(hdr, 2);
                        match spec_dict_entries(mem, py_children_dict_address) {
                            Err(e) => Err(e),
                            Ok(dict_entries) => {
                                match spec_find_children_objects(mem, dict_entries, 0) {
                                    None => Err(ExtractError::NotFound),
                                    Some(list_address) => {
                                        match spec_read(mem, list_address as int, 0x20) {
                                            Err(e) => Err(e),
                                            Ok(list_hdr) => {
                                                let list_ob_size = spec_word(list_hdr, 2);
                                                if list_ob_size > 4000 {
                                                    Err(ExtractError::CorruptionGuard)
                                                } else {
                                                    let list_ob_item = spec_word(list_hdr, 3);
                                                    match spec_read(
                                                        mem,
                                                        list_ob_item as int,
                                                        8 * (list_ob_size as int),
                                                    ) {
                                                        Err(e) => Err(e),
                                                        Ok(bytes) => Ok(
                                                            spec_words_of_bytes(bytes),
                                                        ),
                                                    }
                                                }
                                            },
                                        }
                                    },
                                }
                            },
                        }
                    },
                }
            },
            _ => Err(ExtractError::DecodeFailure),
        }
    }
}

/// The outcome of walking a node's children.
pub struct ProcessedChildren {
    /// Every successfully decoded child's node, in original order.
    pub nodes: Seq<NodeView>,
    /// The region-bearing children, in original order.
    pub with_region: Seq<RegionNodeView>,
    /// The region-free children, in original order.
    pub without_region: Seq<NodeView>,
    /// The absolute regions of region-bearing children that follow an
    /// occluding sibling.
    pub occluded: Seq<DisplayRegion>,
    /// The zone classifications collected in the subtrees, in walk order.
    pub zones: ZonesView,
}

/// The empty outcome.
pub open spec fn spec_no_children() -> ProcessedChildren {
    ProcessedChildren {
        nodes: Seq::empty(),
        with_region: Seq::empty(),
        without_region: Seq::empty(),
        occluded: Seq::empty(),
        zones: spec_zones_empty(),
    }
}

/// Whether some region-bearing child so far occludes its following siblings.
pub open spec fn spec_has_occluder(with_region: Seq<RegionNodeView>) -> bool {
    exists|i: int|
        0 <= i < with_region.len() && spec_node_occludes(
            (#[trigger] with_region[i]).ui_node.object_type_name,
        )
}

/// Walks the child addresses in original order, at the given depth and with
/// the parent's absolute origin. A child whose decode fails is omitted; its
/// siblings still appear.
pub open spec fn spec_process_children(
    mem: MemorySnapshot,
    addrs: Seq<u64>,
    depth: nat,
    origin_x: i32,
    origin_y: i32,
) -> ProcessedChildren
    decreases depth, 2int, addrs.len(),
{
    if addrs.len() == 0 {
        spec_no_children()
    } else {
        let prev = spec_process_children(mem, addrs.drop_last(), depth, origin_x, origin_y);
        match spec_read_ui_tree(mem, addrs.last(), depth, Some((origin_x, origin_y))) {
            Err(_) => prev,
            Ok((child, child_zones)) => {
                let nodes = prev.nodes.push(child.ui_node);
                let zones = spec_zones_append(prev.zones, child_zones);
                if spec_display_region_from_entries(child.ui_node.dict_entries_of_interest)
                    is Some {
                    ProcessedChildren {
                        nodes,
                        with_region: prev.with_region.push(child),
                        without_region: prev.without_region,
                        occluded: if spec_has_occluder(prev.with_region) {
                            prev.occluded.push(child.total_display_region)
                        } else {
                            prev.occluded
                        },
                        zones,
                    }
                } else {
                    ProcessedChildren {
                        nodes,
                        with_region: prev.with_region,
                        without_region: prev.without_region.push(child.ui_node),
                        occluded: prev.occluded,
                        zones,
                    }
                }
            },
        }
    }
}

/// The depth used for children when descending one level.
pub open spec fn spec_depth_of(max_depth: i32) -> nat {
    if max_depth <= 0 {
        0
    } else {
        max_depth as nat
    }
}

/// One node of the decoded scene graph, with the zone classifications
/// collected in its subtree.
///
/// The node's 48-byte header holds its dictionary address at offset 16. Its
/// type name must resolve non-empty; its dictionary must decode; its entries
/// must process (see [`spec_process_entries`]). The node's own rectangle
/// defaults to the zero rectangle at the origin; its absolute rectangle is
/// the own rectangle translated by the inherited origin (the root's is its
/// own). At depth zero children are omitted; otherwise a failure to locate
/// the child list yields no children rather than failing the node.
pub open spec fn spec_read_ui_tree(
    mem: MemorySnapshot,
    node_address: u64,
    depth: nat,
    inherited: Option<(i32, i32)>,
) -> Result<(RegionNodeView, ZonesView), ExtractError>
    decreases depth, 1int, 0int,
{
    match spec_read(mem, node_address as int, 0x30) {
        Err(e) => Err(e),
        Ok(hdr) => match spec_object_type_name_at(mem, node_address) {
            Err(e) => Err(e),
            Ok(python_type_name) => {
                if python_type_name.len() == 0 {
                    Err(ExtractError::DecodeFailure)
                } else {
                    let dict_address = spec_word(hdr, 2);
                    match spec_dict_entries(mem, dict_address) {
                        Err(e) => Err(e),
                        Ok(dictionary_entries) => {
                            match spec_process_entries(mem, dictionary_entries) {
                                Err(e) => Err(e),
                                Ok(processed) => {
                                    let self_region = match spec_display_region_from_entries(
                                        processed.entries,
                                    ) {
                                        Some(r) => r,
                                        None => DisplayRegion { x: 0, y: 0, width: 0, height: 0 },
                                    };
                                    let total_region = match inherited {
                                        None => self_region,
                                        Some((ox, oy)) => self_region.spec_translated_by(ox, oy),
                                    };
                                    let children = if depth == 0 {
                                        spec_no_children()
                                    } else {
                                        match spec_children_addresses(mem, processed.entries) {
                                            Err(_) => spec_no_children(),
                                            Ok(addrs) => spec_process_children(
                                                mem,
                                                addrs,
                                                (depth - 1) as nat,
                                                total_region.x,
                                                total_region.y,
                                            ),
                                        }
                                    };
                                    let ui_node = NodeView {
                                        object_address: node_address,
                                        object_type_name: python_type_name,
                                        dict_entries_of_interest: processed.entries,
                                        other_dict_entries_keys: processed.other_keys,
                                        children: children.nodes,
                                    };
                                    let node = RegionNodeView {
                                        ui_node,
                                        child_with_region: children.with_region,
                                        child_without_region: children.without_region,
                                        self_display_region: self_region,
                                        total_display_region: total_region,
                                        total_display_region_visible: DisplayRegion {
                                            x: (-1) as i32,
                                            y: (-1) as i32,
                                            width: 0,
                                            height: 0,
                                        },
                                        occluded_regions: children.occluded,
                                    };
                                    Ok((node, spec_zones_insert(children.zones, python_type_name, node)))
                                },
                            }
                        },
                    }
                }
            },
        },
    }
}


/// A prefix that fails to process keeps the whole list failing the same way.
proof fn lemma_process_entries_error(mem: MemorySnapshot, entries: Seq<PyDictEntry>, j: int)
    requires
        0 <= j <= entries.len(),
        spec_process_entries(mem, entries.subrange(0, j)) is Err,
    ensures
        spec_process_entries(mem, entries) == spec_process_entries(mem, entries.subrange(0, j)),
    decreases entries.len() - j,
{
    if j == entries.len() {
        assert(entries.subrange(0, j) =~= entries);
    } else {
        assert(entries.subrange(0, j + 1).drop_last() =~= entries.subrange(0, j));
        lemma_process_entries_error(mem, entries, j + 1);
    }
}

/// Appending a region-bearing child either keeps or establishes the
/// occluder flag.
pub proof fn lemma_has_occluder_push_public(s: Seq<RegionNodeView>, n: RegionNodeView)
    ensures
        spec_has_occluder(s.push(n)) == (spec_has_occluder(s) || spec_node_occludes(
            n.ui_node.object_type_name,
        )),
{
    let t = s.push(n);
    if spec_has_occluder(s) {
        let i = choose|i: int|
            0 <= i < s.len() && spec_node_occludes((#[trigger] s[i]).ui_node.object_type_name);
        assert(t[i] == s[i]);
        assert(spec_has_occluder(t));
    }
    if spec_node_occludes(n.ui_node.object_type_name) {
        assert(t[s.len() as int] == n);
        assert(spec_has_occluder(t));
    }
    if spec_has_occluder(t) {
        let i = choose|i: int|
            0 <= i < t.len() && spec_node_occludes((#[trigger] t[i]).ui_node.object_type_name);
        if i < s.len() {
            assert(t[i] == s[i]);
            assert(spec_has_occluder(s));
        } else {
            assert(t[i] == n);
        }
    }
}

/// Walks the object graph from a root address into a typed, geometry-
/// annotated tree plus the pass's zone map, against one snapshot and one
/// per-pass cache.
pub struct UiTreeNodeExtractor<'a> {
    windows_memory_reader_ext: PythonMemoryReader<'a>,
    memory_reading_cache: MemoryReadingCache,
}

impl<'a> UiTreeNodeExtractor<'a> {
    /// The snapshot everything is decoded from.
    pub closed spec fn snapshot(self) -> MemorySnapshot {
        self.windows_memory_reader_ext.snapshot()
    }

    /// The caches hold only what the snapshot decodes.
    pub closed spec fn coherent(self) -> bool {
        cache_coherent(self.memory_reading_cache, self.windows_memory_reader_ext.snapshot())
    }

    pub fn new(memory: &'a MemorySnapshot) -> (r: UiTreeNodeExtractor<'a>)
        ensures
            r.snapshot() == *memory,
            r.coherent(),
    {
        UiTreeNodeExtractor {
            windows_memory_reader_ext: PythonMemoryReader::new(memory),
            memory_reading_cache: MemoryReadingCache::new(),
        }
    }

    /// One full extraction pass: clears the per-pass cache, then decodes the
    /// tree under `address` and the zone map of the walk. A failure at the
    /// root fails the whole call.
    pub fn extract_ui_tree_from_address(&mut self, address: u64, max_depth: i32) -> (r: Result<
        (UITreeNodeWithDisplayRegion, UiZones),
        ExtractError,
    >)
        requires
            old(self).coherent(),
        ensures
            final(self).snapshot() == old(self).snapshot(),
            final(self).coherent(),
            match spec_read_ui_tree(
                old(self).snapshot(),
                address,
                spec_depth_of(max_depth),
                None,
            ) {
                Ok((n, z)) => r matches Ok((node, zones)) && view_of_region_node(node) == n
                    && view_of_zones(zones) == z,
                Err(e) => r == Err::<(UITreeNodeWithDisplayRegion, UiZones), ExtractError>(e),
            },
    {
        self.memory_reading_cache.clear();
        let mut children_with_zones = UiConstants::initialize_mapper();
        let node = self.read_ui_tree_from_address(address, max_depth, None, &mut children_with_zones);
        match node {
            Ok(node) => {
                proof {
                    match spec_read_ui_tree(
                        self.snapshot(),
                        address,
                        spec_depth_of(max_depth),
                        None,
                    ) {
                        Ok((n, z)) => {
                            crate::ui_constants::lemma_zones_append_empty(z);
                        },
                        Err(_) => {},
                    }
                }
                Ok((node, children_with_zones))
            },
            Err(e) => Err(e),
        }
    }

    /// Decodes one node and its subtree; see [`spec_read_ui_tree`]. The zone
    /// classifications of the subtree are appended to `children_with_zones`.
    #[verifier::loop_isolation(false)]
    #[verifier::rlimit(100)]
    fn read_ui_tree_from_address(
        &mut self,
        node_address: u64,
        max_depth: i32,
        inherited_origin: Option<(i32, i32)>,
        children_with_zones: &mut UiZones,
    ) -> (r: Result<UITreeNodeWithDisplayRegion, ExtractError>)
        requires
            old(self).coherent(),
        ensures
            final(self).snapshot() == old(self).snapshot(),
            final(self).coherent(),
            match spec_read_ui_tree(
                old(self).snapshot(),
                node_address,
                spec_depth_of(max_depth),
                inherited_origin,
            ) {
                Ok((n, z)) => r matches Ok(node) && view_of_region_node(node) == n
                    && view_of_zones(*final(children_with_zones)) == spec_zones_append(
                    view_of_zones(*old(children_with_zones)),
                    z,
                ),
                Err(e) => r == Err::<UITreeNodeWithDisplayRegion, ExtractError>(e)
                    && view_of_zones(*final(children_with_zones)) == view_of_zones(
                    *old(children_with_zones),
                ),
            },
        decreases spec_depth_of(max_depth), 1int,
    {
        let ghost mem = self.snapshot();
        let ghost zones0 = view_of_zones(*children_with_zones);
        let ui_node_memory = match self.windows_memory_reader_ext.read_bytes(node_address, 0x30) {
            Ok(v) => v,
            Err(e) => {
                return Err(e);
            },
        };
        let python_type_name = match self.windows_memory_reader_ext.get_python_type_name_from_object_address(
            node_address,
            &mut self.memory_reading_cache,
        ) {
            Ok(name) => name,
            Err(e) => {
                return Err(e);
            },
        };
        if python_type_name.as_str().unicode_len() == 0 {
            return Err(ExtractError::DecodeFailure);
        }
        let dict_address = u64_from_le_bytes(slice_subrange(ui_node_memory.as_slice(), 16, 24));
        proof {
            assert(ui_node_memory@.subrange(16, 24) =~= ui_node_memory@.subrange(
                8int * 2,
                8int * 2 + 8,
            ));
            assert(dict_address == spec_word(ui_node_memory@, 2));
        }
        let dictionary_entries = match self.windows_memory_reader_ext.read_active_dictionary_entries_from_dictionary_address(
            dict_address,
        ) {
            Ok(entries) => entries,
            Err(e) => {
                return Err(e);
            },
        };
        let (dict_entries_of_interest, other_dict_entries_keys) = match self.process_dictionary_entries(
            &dictionary_entries,
        ) {
            Ok(pair) => pair,
            Err(e) => {
                return Err(e);
            },
        };
        let ghost processed = ProcessedEntries {
            entries: view_of_entries(dict_entries_of_interest@),
            other_keys: view_of_strings(other_dict_entries_keys@),
        };
        let self_display_region = match crate::display_region_utils::DisplayRegionUtils::get_display_region_from_dict_entries(
            &dict_entries_of_interest,
        ) {
            Some(region) => region,
            None => DisplayRegion::new(0, 0, 0, 0),
        };
        let total_display_region = match inherited_origin {
            Some((origin_x, origin_y)) => self_display_region.translated_by(origin_x, origin_y),
            None => self_display_region,
        };
        let mut children_tree_nodes: Vec<UiTreeNode> = Vec::new();
        let mut childs_with_region: Vec<ChildWithRegion> = Vec::new();
        let mut childs_without_region: Vec<ChildWithoutRegion> = Vec::new();
        let mut occluded_regions: Vec<DisplayRegion> = Vec::new();
        let ghost spec_children = if spec_depth_of(max_depth) == 0 {
            spec_no_children()
        } else {
            match spec_children_addresses(mem, processed.entries) {
                Err(_) => spec_no_children(),
                Ok(addrs) => spec_process_children(
                    mem,
                    addrs,
                    (spec_depth_of(max_depth) - 1) as nat,
                    total_display_region.x,
                    total_display_region.y,
                ),
            }
        };
        if max_depth > 0 {
            match self.read_childrens(
                node_address,
                max_depth,
                &dict_entries_of_interest,
                total_display_region,
                children_with_zones,
            ) {
                Ok((children, with_region, without_region, _visible, occluded)) => {
                    children_tree_nodes = children;
                    childs_with_region = with_region;
                    childs_without_region = without_region;
                    occluded_regions = occluded;
                },
                Err(_) => {},
            }
        }
        proof {
            if spec_children == spec_no_children() {
                assert(view_of_nodes(children_tree_nodes@) =~= spec_children.nodes);
                assert(view_of_region_children(childs_with_region@) =~= spec_children.with_region);
                assert(view_of_nodes_of_children(childs_without_region@)
                    =~= spec_children.without_region);
                assert(occluded_regions@ =~= spec_children.occluded);
                crate::ui_constants::lemma_zones_append_empty(zones0);
            }
        }
        let type_name_for_zone = python_type_name.clone();
        let ui_tree_node = UiTreeNode::new(
            node_address,
            python_type_name,
            dict_entries_of_interest,
            other_dict_entries_keys,
            children_tree_nodes,
        );
        let node_with_display_region = UITreeNodeWithDisplayRegion {
            ui_node: ui_tree_node,
            child_with_region: childs_with_region,
            child_without_region: childs_without_region,
            self_display_region,
            total_display_region,
            total_display_region_visible: DisplayRegion::new(-1, -1, 0, 0),
            occluded_regions,
        };
        UiConstants::check_and_insert_inportant_zone(
            children_with_zones,
            &type_name_for_zone,
            &node_with_display_region,
        );
        proof {
            crate::ui_constants::lemma_zones_append_insert(
                zones0,
                spec_children.zones,
                type_name_for_zone@,
                view_of_region_node(node_with_display_region),
            );
        }
        Ok(node_with_display_region)
    }


    /// Processes a node's dictionary entries; see [`spec_process_entries`].
    #[verifier::loop_isolation(false)]
    #[verifier::rlimit(100)]
    fn process_dictionary_entries(
        &mut self,
        dictionary_entries: &Vec<PyDictEntry>,
    ) -> (r: Result<(Vec<DictEntry>, Vec<String>), ExtractError>)
        requires
            old(self).coherent(),
        ensures
            final(self).snapshot() == old(self).snapshot(),
            final(self).coherent(),
            match spec_process_entries(old(self).snapshot(), dictionary_entries@) {
                Ok(processed) => r matches Ok((entries, other_keys)) && view_of_entries(entries@)
                    == processed.entries && view_of_strings(other_keys@) == processed.other_keys
                    && crate::values::spec_entries_keys_unique(view_of_entries(entries@)),
                Err(e) => r == Err::<(Vec<DictEntry>, Vec<String>), ExtractError>(e),
            },
    {
        let ghost mem = self.snapshot();
        let mut dict_entries_of_interest: Vec<DictEntry> = Vec::new();
        let mut other_dict_entries_keys: Vec<String> = Vec::new();
        let entry_count = dictionary_entries.len();
        proof {
            assert(dictionary_entries@.subrange(0, 0) =~= Seq::<PyDictEntry>::empty());
            assert(view_of_entries(dict_entries_of_interest@) =~= Seq::<EntryView>::empty());
            assert(view_of_strings(other_dict_entries_keys@) =~= Seq::<Seq<char>>::empty());
        }
        let mut i: usize = 0;
        while i < entry_count
            invariant
                self.coherent(),
                self.snapshot() == mem,
                0 <= i <= entry_count,
                spec_process_entries(mem, dictionary_entries@.subrange(0, i as int)) == Ok::<
                    ProcessedEntries,
                    ExtractError,
                >(
                    ProcessedEntries {
                        entries: view_of_entries(dict_entries_of_interest@),
                        other_keys: view_of_strings(other_dict_entries_keys@),
                    },
                ),
                crate::values::spec_entries_keys_unique(
                    view_of_entries(dict_entries_of_interest@),
                ),
            decreases entry_count - i,
        {
            let entry = dictionary_entries[i];
            proof {
                assert(dictionary_entries@.subrange(0, i + 1).drop_last()
                    =~= dictionary_entries@.subrange(0, i as int));
                assert(dictionary_entries@.subrange(0, i + 1).last() == entry);
            }
            let key_type_name = match self.windows_memory_reader_ext.get_python_type_name_from_object_address(
                entry.key,
                &mut self.memory_reading_cache,
            ) {
                Ok(name) => name,
                Err(e) => {
                    proof {
                        lemma_process_entries_error(mem, dictionary_entries@, i + 1);
                    }
                    return Err(e);
                },
            };
            if !str_eq(key_type_name.as_str(), "str") {
                i = i + 1;
                continue;
            }
            let key_string = match self.windows_memory_reader_ext.read_python_string_value_max_length_4000(
                entry.key,
                &mut self.memory_reading_cache,
            ) {
                Ok(s) => s,
                Err(e) => {
                    proof {
                        lemma_process_entries_error(mem, dictionary_entries@, i + 1);
                    }
                    return Err(e);
                },
            };
            if !PythonTypeExtractor::is_key_of_interest(key_string.as_str()) {
                let ghost gkey = key_string@;
                let ghost before = other_dict_entries_keys@;
                other_dict_entries_keys.push(key_string);
                proof {
                    assert(view_of_strings(other_dict_entries_keys@) =~= view_of_strings(
                        before,
                    ).push(gkey));
                }
                i = i + 1;
                continue;
            }
            let dict_entry_value = self.windows_memory_reader_ext.get_dict_entry_value_representation(
                entry.value,
                &mut self.memory_reading_cache,
            );
            let mut skip_none_type = false;
            match &dict_entry_value {
                DecodedValue::Generic(g) => {
                    match &g.python_object_type_name {
                        Some(name) => {
                            if str_eq(name.as_str(), "NoneType") {
                                skip_none_type = true;
                            }
                        },
                        None => {},
                    }
                },
                _ => {},
            }
            if skip_none_type {
                i = i + 1;
                continue;
            }
            if str_eq(key_string.as_str(), "_display") {
                let is_visible = match &dict_entry_value {
                    DecodedValue::Bool(b) => *b,
                    _ => false,
                };
                if !is_visible {
                    proof {
                        lemma_process_entries_error(mem, dictionary_entries@, i + 1);
                    }
                    return Err(ExtractError::NotVisible);
                }
            }
            let ghost gkey = key_string@;
            let ghost gvalue = view_of_value(dict_entry_value);
            dict_entries_insert(&mut dict_entries_of_interest, key_string, dict_entry_value);
            i = i + 1;
        }
        proof {
            assert(dictionary_entries@.subrange(0, entry_count as int) =~= dictionary_entries@);
        }
        Ok((dict_entries_of_interest, other_dict_entries_keys))
    }

    /// Walks a node's children; see [`spec_process_children`]. Fails exactly
    /// when the child list cannot be located, in which case the zone map is
    /// untouched.
    #[verifier::loop_isolation(false)]
    fn read_childrens(
        &mut self,
        node_address: u64,
        max_depth: i32,
        dict_entries_of_interest: &Vec<DictEntry>,
        total_display_region: DisplayRegion,
        children_with_zones: &mut UiZones,
    ) -> (r: Result<
        (Vec<UiTreeNode>, Vec<ChildWithRegion>, Vec<ChildWithoutRegion>, DisplayRegion, Vec<
            DisplayRegion,
        >),
        ExtractError,
    >)
        requires
            old(self).coherent(),
            max_depth >= 1,
        ensures
            final(self).snapshot() == old(self).snapshot(),
            final(self).coherent(),
            match spec_children_addresses(
                old(self).snapshot(),
                view_of_entries(dict_entries_of_interest@),
            ) {
                Err(e) => r == Err::<
                    (Vec<UiTreeNode>, Vec<ChildWithRegion>, Vec<ChildWithoutRegion>, DisplayRegion, Vec<DisplayRegion>),
                    ExtractError,
                >(e) && view_of_zones(*final(children_with_zones)) == view_of_zones(
                    *old(children_with_zones),
                ),
                Ok(addrs) => r matches Ok((children, with_region, without_region, visible, occluded)) && {
                    let pc = spec_process_children(
                        old(self).snapshot(),
                        addrs,
                        (spec_depth_of(max_depth) - 1) as nat,
                        total_display_region.x,
                        total_display_region.y,
                    );
                    &&& view_of_nodes(children@) == pc.nodes
                    &&& view_of_region_children(with_region@) == pc.with_region
                    &&& view_of_nodes_of_children(without_region@) == pc.without_region
                    &&& occluded@ == pc.occluded
                    &&& visible == (DisplayRegion { x: -1 as i32, y: -1 as i32, width: 0, height: 0 })
                    &&& view_of_zones(*final(children_with_zones)) == spec_zones_append(
                        view_of_zones(*old(children_with_zones)),
                        pc.zones,
                    )
                },
            },
        decreases spec_depth_of(max_depth), 0int,
    {
        let ghost mem = self.snapshot();
        let ghost zones0 = view_of_zones(*children_with_zones);
        let ghost depth_children = (spec_depth_of(max_depth) - 1) as nat;
        let child_addresses = match self.get_children_addresses(
            node_address,
            dict_entries_of_interest,
        ) {
            Ok(addresses) => addresses,
            Err(e) => {
                return Err(e);
            },
        };
        let ghost addrs = child_addresses@;
        let mut children_tree_nodes: Vec<UiTreeNode> = Vec::new();
        let mut childs_with_region: Vec<ChildWithRegion> = Vec::new();
        let mut childs_without_region: Vec<ChildWithoutRegion> = Vec::new();
        let mut occluded_regions: Vec<DisplayRegion> = Vec::new();
        let mut occluder_present: bool = false;
        let child_count = child_addresses.len();
        let mut i: usize = 0;
        while i < child_count
            invariant
                self.coherent(),
                self.snapshot() == mem,
                0 <= i <= child_count,
                ({
                    let pc = spec_process_children(
                        mem,
                        addrs.subrange(0, i as int),
                        depth_children,
                        total_display_region.x,
                        total_display_region.y,
                    );
                    &&& view_of_nodes(children_tree_nodes@) == pc.nodes
                    &&& view_of_region_children(childs_with_region@) == pc.with_region
                    &&& view_of_nodes_of_children(childs_without_region@) == pc.without_region
                    &&& occluded_regions@ == pc.occluded
                    &&& occluder_present == spec_has_occluder(pc.with_region)
                    &&& view_of_zones(*children_with_zones) == spec_zones_append(zones0, pc.zones)
                }),
            decreases child_count - i,
        {
            let ghost pc_before = spec_process_children(
                mem,
                addrs.subrange(0, i as int),
                depth_children,
                total_display_region.x,
                total_display_region.y,
            );
            proof {
                assert(addrs.subrange(0, i + 1).drop_last() =~= addrs.subrange(0, i as int));
                assert(addrs.subrange(0, i + 1).last() == addrs[i as int]);
            }
            let child_address = child_addresses[i];
            let ghost zones_before = view_of_zones(*children_with_zones);
            match self.read_ui_tree_from_address(
                child_address,
                max_depth - 1,
                Some((total_display_region.x, total_display_region.y)),
                children_with_zones,
            ) {
                Err(_) => {},
                Ok(child) => {
                    proof {
                        let child_zones = match spec_read_ui_tree(
                            mem,
                            addrs[i as int],
                            depth_children,
                            Some((total_display_region.x, total_display_region.y)),
                        ) {
                            Ok((_, z)) => z,
                            Err(_) => spec_zones_empty(),
                        };
                        crate::ui_constants::lemma_zones_append_assoc(
                            zones0,
                            pc_before.zones,
                            child_zones,
                        );
                    }
                    children_tree_nodes.push(clone_ui_tree_node(&child.ui_node));
                    proof {
                        assert(view_of_nodes(children_tree_nodes@) =~= pc_before.nodes.push(
                            view_of_region_node(child).ui_node,
                        ));
                    }
                    let child_total = child.total_display_region;
                    let child_occludes = UiUtils::node_occludes_following_nodes(&child);
                    match crate::display_region_utils::DisplayRegionUtils::get_display_region_from_dict_entries(
                        &child.ui_node.dict_entries_of_interest,
                    ) {
                        Some(_) => {
                            if occluder_present {
                                occluded_regions.push(child_total);
                            }
                            proof {
                                lemma_has_occluder_push_public(
                                    pc_before.with_region,
                                    view_of_region_node(child),
                                );
                            }
                            childs_with_region.push(ChildWithRegion { node: child });
                            if child_occludes {
                                occluder_present = true;
                            }
                            proof {
                                assert(view_of_region_children(childs_with_region@)
                                    =~= pc_before.with_region.push(
                                    view_of_region_node(
                                        childs_with_region@.last().node,
                                    ),
                                ));
                            }
                        },
                        None => {
                            let UITreeNodeWithDisplayRegion { ui_node, .. } = child;
                            childs_without_region.push(ChildWithoutRegion { node: ui_node });
                            proof {
                                assert(view_of_nodes_of_children(childs_without_region@)
                                    =~= pc_before.without_region.push(
                                    view_of_node(childs_without_region@.last().node),
                                ));
                            }
                        },
                    }
                },
            }
            i = i + 1;
        }
        proof {
            assert(addrs.subrange(0, child_count as int) =~= addrs);
        }
        Ok(
            (
                children_tree_nodes,
                childs_with_region,
                childs_without_region,
                DisplayRegion::new(-1, -1, 0, 0),
                occluded_regions,
            ),
        )
    }

    /// Locates a node's ordered child addresses; see
    /// [`spec_children_addresses`].
    #[verifier::loop_isolation(false)]
    fn get_children_addresses(
        &mut self,
        node_address: u64,
        dict_entries_of_interest: &Vec<DictEntry>,
    ) -> (r: Result<Vec<u64>, ExtractError>)
        requires
            old(self).coherent(),
        ensures
            final(self).snapshot() == old(self).snapshot(),
            final(self).coherent(),
            match spec_children_addresses(
                old(self).snapshot(),
                view_of_entries(dict_entries_of_interest@),
            ) {
                Ok(addrs) => r matches Ok(v) && v@ == addrs,
                Err(e) => r == Err::<Vec<u64>, ExtractError>(e),
            },
    {
        let ghost mem = self.snapshot();
        let children_dict_entry = match dict_entries_find(dict_entries_of_interest, "children") {
            Some(value) => value,
            None => {
                return Err(ExtractError::NotFound);
            },
        };
        let children_entry_object_address = match children_dict_entry {
            DecodedValue::Generic(g) => g.address,
            _ => {
                return Err(ExtractError::DecodeFailure);
            },
        };
        let py_children_list_memory = match self.windows_memory_reader_ext.read_bytes(
            children_entry_object_address,
            0x18,
        ) {
            Ok(v) => v,
            Err(e) => {
                return Err(e);
            },
        };
        let py_children_dict_address = u64_from_le_bytes(
            slice_subrange(py_children_list_memory.as_slice(), 16, 24),
        );
        proof {
            assert(py_children_list_memory@.subrange(16, 24) =~= py_children_list_memory@.subrange(
                8int * 2,
                8int * 2 + 8,
            ));
            assert(py_children_dict_address == spec_word(py_children_list_memory@, 2));
        }
        let py_children_dict_entries = match self.windows_memory_reader_ext.read_active_dictionary_entries_from_dictionary_address(
            py_children_dict_address,
        ) {
            Ok(entries) => entries,
            Err(e) => {
                return Err(e);
            },
        };
        let entry_count = py_children_dict_entries.len();
        let mut found: Option<u64> = None;
        let mut i: usize = 0;
        while i < entry_count && found.is_none()
            invariant
                self.coherent(),
                self.snapshot() == mem,
                0 <= i <= entry_count,
                match found {
                    Some(v) => spec_find_children_objects(mem, py_children_dict_entries@, 0)
                        == Some(v),
                    None => forall|k: int|
                        0 <= k < i ==> !spec_matches_children_key(
                            mem,
                            #[trigger] py_children_dict_entries@[k],
                        ),
                },
            decreases entry_count - i,
        {
            let entry = py_children_dict_entries[i];
            let mut is_non_str: bool = false;
            match self.windows_memory_reader_ext.get_python_type_name_from_object_address(
                entry.key,
                &mut self.memory_reading_cache,
            ) {
                Ok(name) => {
                    if !str_eq(name.as_str(), "str") {
                        is_non_str = true;
                    }
                },
                Err(_) => {},
            }
            if !is_non_str {
                match self.windows_memory_reader_ext.read_python_string_value_max_length_4000(
                    entry.key,
                    &mut self.memory_reading_cache,
                ) {
                    Ok(key_string) => {
                        if str_eq(key_string.as_str(), "_childrenObjects") {
                            found = Some(entry.value);
                            proof {
                                assert(spec_matches_children_key(mem, entry));
                                lemma_find_children_first(
                                    mem,
                                    py_children_dict_entries@,
                                    i as int,
                                );
                            }
                        }
                    },
                    Err(_) => {},
                }
            }
            i = i + 1;
        }
        let children_list_address = match found {
            Some(v) => v,
            None => {
                proof {
                    lemma_find_children_none(mem, py_children_dict_entries@, 0);
                }
                return Err(ExtractError::NotFound);
            },
        };
        let python_list_object_memory = match self.windows_memory_reader_ext.read_bytes(
            children_list_address,
            0x20,
        ) {
            Ok(v) => v,
            Err(e) => {
                return Err(e);
            },
        };
        let list_ob_size = u64_from_le_bytes(
            slice_subrange(python_list_object_memory.as_slice(), 16, 24),
        );
        let list_ob_item = u64_from_le_bytes(
            slice_subrange(python_list_object_memory.as_slice(), 24, 32),
        );
        proof {
            assert(python_list_object_memory@.subrange(16, 24)
                =~= python_list_object_memory@.subrange(8int * 2, 8int * 2 + 8));
            assert(python_list_object_memory@.subrange(24, 32)
                =~= python_list_object_memory@.subrange(8int * 3, 8int * 3 + 8));
            assert(list_ob_size == spec_word(python_list_object_memory@, 2));
            assert(list_ob_item == spec_word(python_list_object_memory@, 3));
        }
        if list_ob_size > 4000 {
            return Err(ExtractError::CorruptionGuard);
        }
        let list_entries_memory = match self.windows_memory_reader_ext.read_bytes(
            list_ob_item,
            list_ob_size * 8,
        ) {
            Ok(v) => v,
            Err(e) => {
                return Err(e);
            },
        };
        let words = crate::memory::transform_memory_content_as_ulong_memory(
            list_entries_memory.as_slice(),
        );
        proof {
            assert(words@ =~= spec_words_of_bytes(list_entries_memory@));
        }
        Ok(words)
    }
}

/// When the first `i` slots do not match and slot `i` does, the scan finds
/// slot `i`'s value.
proof fn lemma_find_children_first(mem: MemorySnapshot, entries: Seq<PyDictEntry>, i: int)
    requires
        0 <= i < entries.len(),
        spec_matches_children_key(mem, entries[i]),
        forall|j: int|
            0 <= j < i ==> !spec_matches_children_key(mem, #[trigger] entries[j]),
    ensures
        spec_find_children_objects(mem, entries, 0) == Some(entries[i].value),
{
    lemma_find_children_step(mem, entries, 0, i);
}

proof fn lemma_find_children_step(mem: MemorySnapshot, entries: Seq<PyDictEntry>, from: int, i: int)
    requires
        0 <= from <= i < entries.len(),
        spec_matches_children_key(mem, entries[i]),
        forall|j: int|
            from <= j < i ==> !spec_matches_children_key(mem, #[trigger] entries[j]),
    ensures
        spec_find_children_objects(mem, entries, from) == Some(entries[i].value),
    decreases i - from,
{
    if from < i {
        lemma_find_children_step(mem, entries, from + 1, i);
    }
}

/// With no matching slot at all, the scan finds nothing.
proof fn lemma_find_children_none(mem: MemorySnapshot, entries: Seq<PyDictEntry>, from: int)
    requires
        0 <= from,
        forall|j: int|
            0 <= j < entries.len() ==> !spec_matches_children_key(mem, #[trigger] entries[j]),
    ensures
        spec_find_children_objects(mem, entries, from) is None,
    decreases entries.len() - from,
{
    if from < entries.len() {
        lemma_find_children_none(mem, entries, from + 1);
    }
}

} // verus!
