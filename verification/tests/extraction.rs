//! Tree extraction scenarios over synthetic CPython object graphs.

use eve_ui_tree::memory::MemorySnapshot;
use eve_ui_tree::memory::RegionContent;
use eve_ui_tree::memory_reading_cache::MemoryReadingCache;
use eve_ui_tree::python_memory_reader::PythonMemoryReader;
use eve_ui_tree::ui_tree_node_extractor::UiTreeNodeExtractor;
use eve_ui_tree::display_region::DisplayRegion;
use eve_ui_tree::values::DecodedValue;
use eve_ui_tree::eve_ui_tracker::EveUiTracker;
use eve_ui_tree::eve_ui_tracker::get_root_address;
use eve_ui_tree::eve_ui_tracker::extract_ui_tree_address;
use eve_ui_tree::overview_window::OverviewLabels;

const BASE: u64 = 0x100000;

struct Arena {
    bytes: Vec<u8>,
    next: usize,
}

impl Arena {
    fn new(size: usize) -> Arena {
        Arena { bytes: vec![0u8; size], next: 8 }
    }

    fn w64(&mut self, off: usize, v: u64) {
        let b = v.to_le_bytes();
        let mut i = 0;
        while i < 8 {
            self.bytes[off + i] = b[i];
            i += 1;
        }
    }

    fn reserve(&mut self, size: usize) -> usize {
        let p = self.next;
        self.next += (size + 7) / 8 * 8;
        assert!(self.next <= self.bytes.len());
        p
    }

    fn addr(&self, off: usize) -> u64 {
        BASE + off as u64
    }

    fn name_blob(&mut self, name: &str) -> u64 {
        let off = self.reserve(name.len() + 1);
        let mut i = 0;
        for b in name.bytes() {
            self.bytes[off + i] = b;
            i += 1;
        }
        // Space for the fixed 100-byte name read.
        self.next = (self.next + 104 + 7) / 8 * 8;
        assert!(self.next <= self.bytes.len());
        self.addr(off)
    }

    fn type_object(&mut self, name: &str) -> u64 {
        let name_ptr = self.name_blob(name);
        let off = self.reserve(32);
        self.w64(off + 24, name_ptr);
        self.addr(off)
    }

    fn str_object(&mut self, ty_str: u64, content: &str) -> u64 {
        let off = self.reserve(32 + content.len());
        self.w64(off + 8, ty_str);
        self.w64(off + 16, content.len() as u64);
        let mut i = 0;
        for b in content.bytes() {
            self.bytes[off + 32 + i] = b;
            i += 1;
        }
        self.addr(off)
    }

    fn int_object(&mut self, ty_int: u64, v: i64) -> u64 {
        let off = self.reserve(24);
        self.w64(off + 8, ty_int);
        self.w64(off + 16, v as u64);
        self.addr(off)
    }

    fn bool_object(&mut self, ty_bool: u64, v: bool) -> u64 {
        let off = self.reserve(24);
        self.w64(off + 8, ty_bool);
        self.w64(off + 16, if v { 1 } else { 0 });
        self.addr(off)
    }

    fn dict_object(&mut self, entries: &[(u64, u64)]) -> u64 {
        let slots = if entries.is_empty() { 1 } else { entries.len() };
        let table_off = self.reserve(24 * slots);
        let mut i = 0;
        for (key, value) in entries {
            self.w64(table_off + 24 * i, 1);
            self.w64(table_off + 24 * i + 8, *key);
            self.w64(table_off + 24 * i + 16, *value);
            i += 1;
        }
        let off = self.reserve(48);
        self.w64(off + 32, slots as u64 - 1);
        self.w64(off + 40, self.addr(table_off));
        self.addr(off)
    }

    fn list_object(&mut self, items: &[u64]) -> u64 {
        let items_off = self.reserve(8 * items.len().max(1));
        let mut i = 0;
        for item in items {
            self.w64(items_off + 8 * i, *item);
            i += 1;
        }
        let off = self.reserve(32);
        self.w64(off + 16, items.len() as u64);
        self.w64(off + 24, self.addr(items_off));
        self.addr(off)
    }

    fn children_value(&mut self, children_dict: u64) -> u64 {
        let off = self.reserve(0x18);
        self.w64(off + 16, children_dict);
        self.addr(off)
    }

    fn node_object(&mut self, ty: u64, dict: u64) -> u64 {
        let off = self.reserve(48);
        self.w64(off + 8, ty);
        self.w64(off + 16, dict);
        self.addr(off)
    }

    /// A type object that itself looks like a scannable candidate: its
    /// second word points back at itself and its fourth word at the name
    /// `type`; a named type object then points here.
    fn scannable_type_type(&mut self) -> u64 {
        let name_ptr = self.name_blob("type");
        let off = self.reserve(32);
        let own = self.addr(off);
        self.w64(off + 8, own);
        self.w64(off + 24, name_ptr);
        own
    }

    fn named_type_object(&mut self, meta: u64, name: &str) -> u64 {
        let name_ptr = self.name_blob(name);
        let off = self.reserve(32);
        self.w64(off + 8, meta);
        self.w64(off + 24, name_ptr);
        self.addr(off)
    }

    fn float_object(&mut self, ty_float: u64, bits: u64) -> u64 {
        let off = self.reserve(32);
        self.w64(off + 8, ty_float);
        self.w64(off + 16, bits);
        self.addr(off)
    }

    /// A `PyColor` object: its dictionary reference sits at offset 16.
    fn color_object(&mut self, ty_color: u64, dict: u64) -> u64 {
        let off = self.reserve(24);
        self.w64(off + 8, ty_color);
        self.w64(off + 16, dict);
        self.addr(off)
    }

    /// A `Bunch` object: typed, and itself laid out as a dictionary.
    fn bunch_object(&mut self, ty_bunch: u64, entries: &[(u64, u64)]) -> u64 {
        let slots = if entries.is_empty() { 1 } else { entries.len() };
        let table_off = self.reserve(24 * slots);
        let mut i = 0;
        for (key, value) in entries {
            self.w64(table_off + 24 * i, 1);
            self.w64(table_off + 24 * i + 8, *key);
            self.w64(table_off + 24 * i + 16, *value);
            i += 1;
        }
        let off = self.reserve(48);
        self.w64(off + 8, ty_bunch);
        self.w64(off + 32, slots as u64 - 1);
        self.w64(off + 40, self.addr(table_off));
        self.addr(off)
    }

    fn snapshot(self) -> MemorySnapshot {
        MemorySnapshot::from_regions(vec![RegionContent {
            base_address: BASE,
            bytes: self.bytes,
        }])
        .unwrap()
    }
}

struct Names {
    ty_str: u64,
    ty_int: u64,
    ty_bool: u64,
}

fn common_types(arena: &mut Arena) -> Names {
    Names {
        ty_str: arena.type_object("str"),
        ty_int: arena.type_object("int"),
        ty_bool: arena.type_object("bool"),
    }
}

/// A node with a rectangle at (x, y, w, h) and the given children list.
fn region_node(
    arena: &mut Arena,
    names: &Names,
    kind_name: &str,
    x: i64,
    y: i64,
    w: i64,
    h: i64,
    children: &[u64],
) -> u64 {
    let ty = arena.type_object(kind_name);
    let key_x = arena.str_object(names.ty_str, "_displayX");
    let key_y = arena.str_object(names.ty_str, "_displayY");
    let key_w = arena.str_object(names.ty_str, "_displayWidth");
    let key_h = arena.str_object(names.ty_str, "_displayHeight");
    let val_x = arena.int_object(names.ty_int, x);
    let val_y = arena.int_object(names.ty_int, y);
    let val_w = arena.int_object(names.ty_int, w);
    let val_h = arena.int_object(names.ty_int, h);
    let key_children = arena.str_object(names.ty_str, "children");
    let children_objects_key = arena.str_object(names.ty_str, "_childrenObjects");
    let list = arena.list_object(children);
    let children_dict = arena.dict_object(&[(children_objects_key, list)]);
    let children_val = arena.children_value(children_dict);
    let dict = arena.dict_object(&[
        (key_x, val_x),
        (key_y, val_y),
        (key_w, val_w),
        (key_h, val_h),
        (key_children, children_val),
    ]);
    arena.node_object(ty, dict)
}

/// A node with no display rectangle and no children entry.
fn bare_node(arena: &mut Arena, names: &Names, kind_name: &str) -> u64 {
    let ty = arena.type_object(kind_name);
    let key_name = arena.str_object(names.ty_str, "_name");
    let val_name = arena.str_object(names.ty_str, "plain");
    let dict = arena.dict_object(&[(key_name, val_name)]);
    arena.node_object(ty, dict)
}

/// A node whose `_display` property is boolean false.
fn invisible_node(arena: &mut Arena, names: &Names, kind_name: &str) -> u64 {
    let ty = arena.type_object(kind_name);
    let key_display = arena.str_object(names.ty_str, "_display");
    let val_display = arena.bool_object(names.ty_bool, false);
    let dict = arena.dict_object(&[(key_display, val_display)]);
    arena.node_object(ty, dict)
}

#[test]
fn total_region_translates_by_parent_origin() {
    let mut arena = Arena::new(65536);
    let names = common_types(&mut arena);
    let child = region_node(&mut arena, &names, "Widget", 5, 7, 30, 40, &[]);
    let root = region_node(&mut arena, &names, "Container", 100, 200, 800, 600, &[child]);
    let snapshot = arena.snapshot();
    let mut extractor = UiTreeNodeExtractor::new(&snapshot);
    let (tree, _zones) = extractor.extract_ui_tree_from_address(root, 99).unwrap();
    // The root's absolute rectangle is its own rectangle.
    assert_eq!(tree.self_display_region, DisplayRegion { x: 100, y: 200, width: 800, height: 600 });
    assert_eq!(tree.total_display_region, tree.self_display_region);
    // The child's absolute rectangle is its own, translated by the root's origin.
    assert_eq!(tree.child_with_region.len(), 1);
    let child_node = &tree.child_with_region[0].node;
    assert_eq!(child_node.self_display_region, DisplayRegion { x: 5, y: 7, width: 30, height: 40 });
    assert_eq!(
        child_node.total_display_region,
        DisplayRegion { x: 105, y: 207, width: 30, height: 40 }
    );
}

#[test]
fn child_order_is_original_order() {
    let mut arena = Arena::new(131072);
    let names = common_types(&mut arena);
    let a = region_node(&mut arena, &names, "WidgetA", 1, 0, 10, 10, &[]);
    let b = region_node(&mut arena, &names, "WidgetB", 2, 0, 10, 10, &[]);
    let c = region_node(&mut arena, &names, "WidgetC", 3, 0, 10, 10, &[]);
    let no_region = bare_node(&mut arena, &names, "Sprite");
    let root = region_node(&mut arena, &names, "Container", 0, 0, 100, 100, &[a, b, no_region, c]);
    let snapshot = arena.snapshot();
    let mut extractor = UiTreeNodeExtractor::new(&snapshot);
    let (tree, _zones) = extractor.extract_ui_tree_from_address(root, 99).unwrap();
    // All four children decode, in the `_childrenObjects` order.
    let kinds: Vec<&str> = tree.ui_node.children.iter().map(|c| c.object_type_name.as_str()).collect();
    assert_eq!(kinds, vec!["WidgetA", "WidgetB", "Sprite", "WidgetC"]);
    // The region-bearing children keep that order among themselves.
    let with_kinds: Vec<&str> =
        tree.child_with_region.iter().map(|c| c.node.ui_node.object_type_name.as_str()).collect();
    assert_eq!(with_kinds, vec!["WidgetA", "WidgetB", "WidgetC"]);
    assert_eq!(tree.child_without_region.len(), 1);
    assert_eq!(tree.child_without_region[0].node.object_type_name.as_str(), "Sprite");
}

#[test]
fn invisible_node_and_subtree_absent_siblings_present() {
    let mut arena = Arena::new(131072);
    let names = common_types(&mut arena);
    let left = region_node(&mut arena, &names, "Left", 1, 1, 5, 5, &[]);
    let hidden = invisible_node(&mut arena, &names, "Hidden");
    let right = region_node(&mut arena, &names, "Right", 2, 2, 5, 5, &[]);
    let root = region_node(&mut arena, &names, "Container", 0, 0, 50, 50, &[left, hidden, right]);
    let snapshot = arena.snapshot();
    let mut extractor = UiTreeNodeExtractor::new(&snapshot);
    let (tree, _zones) = extractor.extract_ui_tree_from_address(root, 99).unwrap();
    let kinds: Vec<&str> = tree.ui_node.children.iter().map(|c| c.object_type_name.as_str()).collect();
    assert_eq!(kinds, vec!["Left", "Right"]);
}

#[test]
fn occluding_sibling_marks_following_regions() {
    let mut arena = Arena::new(262144);
    let names = common_types(&mut arena);
    let occluder = region_node(&mut arena, &names, "OverviewWindow", 0, 0, 100, 100, &[]);
    let s1 = region_node(&mut arena, &names, "WidgetA", 10, 10, 5, 5, &[]);
    let s2 = region_node(&mut arena, &names, "WidgetB", 20, 20, 5, 5, &[]);
    let s3 = region_node(&mut arena, &names, "WidgetC", 30, 30, 5, 5, &[]);
    let root = region_node(&mut arena, &names, "Container", 0, 0, 500, 500, &[occluder, s1, s2, s3]);
    let snapshot = arena.snapshot();
    let mut extractor = UiTreeNodeExtractor::new(&snapshot);
    let (tree, zones) = extractor.extract_ui_tree_from_address(root, 99).unwrap();
    // All three siblings that follow the occluder have their absolute
    // regions in the parent's occluded-region set.
    assert_eq!(
        tree.occluded_regions,
        vec![
            DisplayRegion { x: 10, y: 10, width: 5, height: 5 },
            DisplayRegion { x: 20, y: 20, width: 5, height: 5 },
            DisplayRegion { x: 30, y: 30, width: 5, height: 5 },
        ]
    );
    // The occluder itself was classified into the overview zone.
    assert_eq!(zones.overview.len(), 1);
    assert_eq!(zones.overview[0].ui_node.object_type_name.as_str(), "OverviewWindow");
    assert_eq!(zones.directional_scanner.len(), 0);
    assert_eq!(zones.probe_scanner.len(), 0);
}

#[test]
fn sibling_before_occluder_is_not_marked() {
    let mut arena = Arena::new(131072);
    let names = common_types(&mut arena);
    let early = region_node(&mut arena, &names, "WidgetA", 1, 1, 5, 5, &[]);
    let occluder = region_node(&mut arena, &names, "ContextMenu", 0, 0, 100, 100, &[]);
    let late = region_node(&mut arena, &names, "WidgetB", 2, 2, 5, 5, &[]);
    let root = region_node(&mut arena, &names, "Container", 0, 0, 500, 500, &[early, occluder, late]);
    let snapshot = arena.snapshot();
    let mut extractor = UiTreeNodeExtractor::new(&snapshot);
    let (tree, _zones) = extractor.extract_ui_tree_from_address(root, 99).unwrap();
    assert_eq!(tree.occluded_regions, vec![DisplayRegion { x: 2, y: 2, width: 5, height: 5 }]);
}

#[test]
fn decoding_same_address_twice_issues_no_new_read() {
    let mut arena = Arena::new(65536);
    let names = common_types(&mut arena);
    let value = arena.str_object(names.ty_str, "cached-text");
    let snapshot = arena.snapshot();
    let mut reader = PythonMemoryReader::new(&snapshot);
    let mut cache = MemoryReadingCache::new();
    let first = reader.get_dict_entry_value_representation(value, &mut cache);
    let reads_after_first = reader.read_count();
    let second = reader.get_dict_entry_value_representation(value, &mut cache);
    let reads_after_second = reader.read_count();
    // The cache answered the second decode: not one more raw read.
    assert_eq!(reads_after_first, reads_after_second);
    // And the content is identical.
    match (&first, &second) {
        (DecodedValue::Str(a), DecodedValue::Str(b)) => {
            assert_eq!(a, b);
            assert_eq!(a.as_str(), "cached-text");
        }
        _ => panic!("expected string decodes"),
    }
}

#[test]
fn cleared_cache_reads_again() {
    let mut arena = Arena::new(65536);
    let names = common_types(&mut arena);
    let value = arena.str_object(names.ty_str, "x");
    let snapshot = arena.snapshot();
    let mut reader = PythonMemoryReader::new(&snapshot);
    let mut cache = MemoryReadingCache::new();
    let _ = reader.get_dict_entry_value_representation(value, &mut cache);
    let reads_before = reader.read_count();
    cache.clear();
    let _ = reader.get_dict_entry_value_representation(value, &mut cache);
    assert!(reader.read_count() > reads_before);
}

#[test]
fn depth_zero_omits_children_without_error() {
    let mut arena = Arena::new(65536);
    let names = common_types(&mut arena);
    let child = region_node(&mut arena, &names, "Widget", 5, 7, 30, 40, &[]);
    let root = region_node(&mut arena, &names, "Container", 0, 0, 10, 10, &[child]);
    let snapshot = arena.snapshot();
    let mut extractor = UiTreeNodeExtractor::new(&snapshot);
    let (tree, _zones) = extractor.extract_ui_tree_from_address(root, 0).unwrap();
    assert_eq!(tree.ui_node.children.len(), 0);
    assert_eq!(tree.child_with_region.len(), 0);
}

#[test]
fn scan_extract_and_track_one_pass() {
    let mut arena = Arena::new(262144);
    let names = common_types(&mut arena);
    // A scannable type-object chain: `type` points at itself, `UIRoot`
    // points at `type`, and the root node points at `UIRoot`.
    let ty_type = arena.scannable_type_type();
    let root_ty = arena.named_type_object(ty_type, "UIRoot");
    // An overview panel child so the pass has something to parse.
    let overview = region_node(&mut arena, &names, "OverviewWindow", 10, 10, 50, 50, &[]);
    // The root node, built by hand so its type is the scannable UIRoot.
    let key_x = arena.str_object(names.ty_str, "_displayX");
    let key_y = arena.str_object(names.ty_str, "_displayY");
    let key_w = arena.str_object(names.ty_str, "_displayWidth");
    let key_h = arena.str_object(names.ty_str, "_displayHeight");
    let val_zero = arena.int_object(names.ty_int, 0);
    let val_size = arena.int_object(names.ty_int, 1000);
    let key_children = arena.str_object(names.ty_str, "children");
    let children_objects_key = arena.str_object(names.ty_str, "_childrenObjects");
    let list = arena.list_object(&[overview]);
    let children_dict = arena.dict_object(&[(children_objects_key, list)]);
    let children_val = arena.children_value(children_dict);
    let dict = arena.dict_object(&[
        (key_x, val_zero),
        (key_y, val_zero),
        (key_w, val_size),
        (key_h, val_size),
        (key_children, children_val),
    ]);
    let root = arena.node_object(root_ty, dict);
    let snapshot = arena.snapshot();
    // The heuristic scan finds the root.
    assert_eq!(get_root_address(&snapshot), Some(root));
    let (chosen, fresh) = extract_ui_tree_address(&snapshot, None).unwrap();
    assert_eq!(chosen, root);
    assert!(fresh);
    // A stored address that still decodes is kept without a scan.
    let (kept, fresh_again) = extract_ui_tree_address(&snapshot, Some(root)).unwrap();
    assert_eq!(kept, root);
    assert!(!fresh_again);
    // One tracking pass parses the overview panel into the record.
    let labels = OverviewLabels {
        distance: String::from("Distance"),
        name: String::from("Name"),
        object_type: String::from("Type"),
        alliance: String::from("Alliance"),
        is_jamming_me: String::from("is jamming me"),
        is_warp_disrupting_me: String::from("is warp disrupting me"),
    };
    let mut tracker = EveUiTracker::new();
    tracker.start_tracker(7);
    tracker.extract_ui_from_process(7, &snapshot, root, &labels).unwrap();
    let status = tracker.get_status(7).unwrap();
    let general = status.general_window.as_ref().unwrap();
    assert_eq!(general.overview_windows.len(), 1);
    assert!(general.directional_scanner.is_none());
    assert!(general.probe_scanner.is_none());
}

#[test]
fn pycolor_decodes_to_scaled_components() {
    let mut arena = Arena::new(65536);
    let names = common_types(&mut arena);
    let ty_float = arena.type_object("float");
    let ty_color = arena.type_object("PyColor");
    let key_a = arena.str_object(names.ty_str, "_a");
    let key_r = arena.str_object(names.ty_str, "_r");
    let key_g = arena.str_object(names.ty_str, "_g");
    let key_b = arena.str_object(names.ty_str, "_b");
    let val_a = arena.float_object(ty_float, 1.0f64.to_bits());
    let val_r = arena.float_object(ty_float, 0.5f64.to_bits());
    let val_g = arena.float_object(ty_float, 0.25f64.to_bits());
    let val_b = arena.float_object(ty_float, 0.0f64.to_bits());
    let dict = arena.dict_object(&[(key_a, val_a), (key_r, val_r), (key_g, val_g), (key_b, val_b)]);
    let color = arena.color_object(ty_color, dict);
    let snapshot = arena.snapshot();
    let mut reader = PythonMemoryReader::new(&snapshot);
    let mut cache = MemoryReadingCache::new();
    let value = reader.get_dict_entry_value_representation(color, &mut cache);
    match value {
        DecodedValue::Color(c) => {
            assert_eq!(c.alpha, 255);
            assert_eq!(c.red, 128);
            assert_eq!(c.green, 64);
            assert_eq!(c.blue, 0);
        }
        _ => panic!("expected a color"),
    }
}

#[test]
fn bunch_keeps_allow_listed_entries() {
    let mut arena = Arena::new(65536);
    let names = common_types(&mut arena);
    let ty_bunch = arena.type_object("Bunch");
    let key_kept = arena.str_object(names.ty_str, "_name");
    let val_kept = arena.str_object(names.ty_str, "inner");
    let key_dropped = arena.str_object(names.ty_str, "_somethingElse");
    let val_dropped = arena.str_object(names.ty_str, "ignored");
    let bunch = arena.bunch_object(ty_bunch, &[(key_kept, val_kept), (key_dropped, val_dropped)]);
    let snapshot = arena.snapshot();
    let mut reader = PythonMemoryReader::new(&snapshot);
    let mut cache = MemoryReadingCache::new();
    let value = reader.get_dict_entry_value_representation(bunch, &mut cache);
    match value {
        DecodedValue::Aggregate(b) => {
            assert_eq!(b.entries_of_interest.len(), 1);
            assert_eq!(b.entries_of_interest[0].key.as_str(), "_name");
            match &b.entries_of_interest[0].value {
                DecodedValue::Str(s) => assert_eq!(s.as_str(), "inner"),
                _ => panic!("expected a string value"),
            }
        }
        _ => panic!("expected an aggregate"),
    }
}

#[test]
fn link_decodes_first_dictionary_reference() {
    let mut arena = Arena::new(65536);
    let names = common_types(&mut arena);
    let ty_dict = arena.type_object("dict");
    let ty_link = arena.type_object("Link");
    let key = arena.str_object(names.ty_str, "caption");
    let val = arena.str_object(names.ty_str, "linked-text");
    // The referenced dictionary, typed `dict` so the word scan can
    // recognize it.
    let target_dict = arena.bunch_object(ty_dict, &[(key, val)]);
    // The link object: 64 bytes; its sixth word holds the reference.
    let off = arena.reserve(0x40);
    arena.w64(off + 8, ty_link);
    arena.w64(off + 0x30, target_dict);
    let link = arena.addr(off);
    let snapshot = arena.snapshot();
    let mut reader = PythonMemoryReader::new(&snapshot);
    let mut cache = MemoryReadingCache::new();
    let value = reader.get_dict_entry_value_representation(link, &mut cache);
    match value {
        DecodedValue::Node(node) => {
            assert_eq!(node.object_address, link);
            assert_eq!(node.object_type_name.as_str(), "Link");
            assert_eq!(node.children.len(), 0);
            assert_eq!(node.dict_entries_of_interest.len(), 1);
            assert_eq!(node.dict_entries_of_interest[0].key.as_str(), "caption");
            match &node.dict_entries_of_interest[0].value {
                DecodedValue::Str(s) => assert_eq!(s.as_str(), "linked-text"),
                _ => panic!("expected a string value"),
            }
        }
        _ => panic!("expected a link node"),
    }
}

#[test]
fn unhandled_type_falls_back_to_generic() {
    let mut arena = Arena::new(65536);
    let names = common_types(&mut arena);
    let ty_exotic = arena.type_object("SomethingExotic");
    let key = arena.str_object(names.ty_str, "_x");
    let dict = arena.dict_object(&[(key, key)]);
    let off = arena.reserve(48);
    arena.w64(off + 8, ty_exotic);
    arena.w64(off + 16, dict);
    let exotic = arena.addr(off);
    let snapshot = arena.snapshot();
    let mut reader = PythonMemoryReader::new(&snapshot);
    let mut cache = MemoryReadingCache::new();
    let value = reader.get_dict_entry_value_representation(exotic, &mut cache);
    match value {
        DecodedValue::Generic(g) => {
            assert_eq!(g.address, exotic);
            assert_eq!(g.python_object_type_name.as_ref().unwrap().as_str(), "SomethingExotic");
        }
        _ => panic!("expected the generic fallback"),
    }
}

#[test]
fn root_read_failure_fails_the_call() {
    let arena = Arena::new(4096);
    let snapshot = arena.snapshot();
    let mut extractor = UiTreeNodeExtractor::new(&snapshot);
    let result = extractor.extract_ui_tree_from_address(0xdead0000, 99);
    assert!(matches!(result, Err(eve_ui_tree::ExtractError::ReadFailure)));
}
