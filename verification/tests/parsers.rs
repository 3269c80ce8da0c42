//! Panel parsing over hand-built decoded trees.

use eve_ui_tree::values::DecodedValue;
use eve_ui_tree::values::DictEntry;
use eve_ui_tree::values::ColorComponents;
use eve_ui_tree::ui_tree_node::UiTreeNode;
use eve_ui_tree::ui_tree_node::UITreeNodeWithDisplayRegion;
use eve_ui_tree::ui_tree_node::ChildWithRegion;
use eve_ui_tree::display_region::DisplayRegion;
use eve_ui_tree::ui_constants::UiConstants;
use eve_ui_tree::ui_constants::UiZones;
use eve_ui_tree::ui_utils::UiUtils;
use eve_ui_tree::parser_utils::ParserUtils;
use eve_ui_tree::overview_window::OverviewWindow;
use eve_ui_tree::overview_window::OverviewLabels;
use eve_ui_tree::general_window::GeneralWindow;
use eve_ui_tree::probe_scanner::ProbeScanner;
use eve_ui_tree::directional_scanner::DirectionalScanner;

fn string_entry(key: &str, value: &str) -> DictEntry {
    DictEntry { key: String::from(key), value: DecodedValue::Str(String::from(value)) }
}

fn raw_node(kind_name: &str, entries: Vec<DictEntry>) -> UiTreeNode {
    UiTreeNode {
        object_address: 0,
        object_type_name: String::from(kind_name),
        dict_entries_of_interest: entries,
        other_dict_entries_keys: Vec::new(),
        children: Vec::new(),
    }
}

fn region_node(
    kind_name: &str,
    entries: Vec<DictEntry>,
    x: i32,
    y: i32,
    children: Vec<UITreeNodeWithDisplayRegion>,
) -> UITreeNodeWithDisplayRegion {
    UITreeNodeWithDisplayRegion {
        ui_node: raw_node(kind_name, entries),
        child_with_region: children.into_iter().map(|node| ChildWithRegion { node }).collect(),
        child_without_region: Vec::new(),
        self_display_region: DisplayRegion::new(x, y, 10, 10),
        total_display_region: DisplayRegion::new(x, y, 10, 10),
        total_display_region_visible: DisplayRegion::new(-1, -1, 0, 0),
        occluded_regions: Vec::new(),
    }
}

fn labels() -> OverviewLabels {
    OverviewLabels {
        distance: String::from("Distance"),
        name: String::from("Name"),
        object_type: String::from("Type"),
        alliance: String::from("Alliance"),
        is_jamming_me: String::from("is jamming me"),
        is_warp_disrupting_me: String::from("is warp disrupting me"),
    }
}

#[test]
fn display_text_prefers_longer_of_set_text_and_text() {
    let node = raw_node(
        "Label",
        vec![string_entry("_setText", "short"), string_entry("_text", "a longer text")],
    );
    assert_eq!(UiTreeNode::get_display_text(&node).as_str(), "a longer text");
    let tie = raw_node("Label", vec![string_entry("_setText", "aa"), string_entry("_text", "bb")]);
    // Ties go to `_setText`.
    assert_eq!(UiTreeNode::get_display_text(&tie).as_str(), "aa");
    let neither = raw_node("Label", vec![]);
    assert_eq!(UiTreeNode::get_display_text(&neither).as_str(), "");
}

#[test]
fn string_color_and_opacity_properties() {
    let color = ColorComponents { alpha: 255, red: 128, green: 64, blue: 0 };
    let node = raw_node(
        "Fill",
        vec![
            string_entry("_name", "bgColor"),
            string_entry("_opacity", "0.75"),
            DictEntry { key: String::from("_color"), value: DecodedValue::Color(color) },
        ],
    );
    assert_eq!(ParserUtils::get_name_from_dict_entries(&node).unwrap().as_str(), "bgColor");
    assert_eq!(ParserUtils::get_color_percentage_from_dict_entries(&node), Some(color));
    assert_eq!(ParserUtils::get_opacity_from_dict_entries(&node), Some(75));
    let odd = raw_node("Fill", vec![string_entry("_opacity", "0.345")]);
    assert_eq!(ParserUtils::get_opacity_from_dict_entries(&odd), Some(35));
    let whole = raw_node("Fill", vec![string_entry("_opacity", "1")]);
    assert_eq!(ParserUtils::get_opacity_from_dict_entries(&whole), Some(100));
    let bad = raw_node("Fill", vec![string_entry("_opacity", "high")]);
    assert_eq!(ParserUtils::get_opacity_from_dict_entries(&bad), None);
}

#[test]
fn type_listing_is_sorted_and_distinct() {
    let mut root = raw_node("Window", vec![]);
    let mut panel = raw_node("Panel", vec![]);
    panel.children.push(raw_node("Label", vec![]));
    panel.children.push(raw_node("Panel", vec![]));
    root.children.push(panel);
    root.children.push(raw_node("Label", vec![]));
    let kinds: Vec<String> = root.extract_types();
    let kinds: Vec<&str> = kinds.iter().map(|k| k.as_str()).collect();
    assert_eq!(kinds, vec!["Label", "Panel", "Window"]);
    // Counting includes the node itself and every descendant.
    assert_eq!(root.count_descendants(), 5);
    assert_eq!(root.enumerate_self_and_descendants().len(), 5);
    assert_eq!(eve_ui_tree::ui_tree_node::UiTreeNode::list_descendants_in_ui_tree_node(&root).len(), 4);
}

#[test]
fn fixed_number_from_properties() {
    let node = raw_node("Widget", vec![string_entry("_displayX", "42")]);
    assert_eq!(UiUtils::fixed_number_from_ui_node("_displayX", &node), Some(42));
    assert_eq!(UiUtils::fixed_number_from_ui_node("_displayY", &node), None);
}

#[test]
fn find_node_by_type_in_region_tree() {
    let handle = region_node("ScrollHandle", vec![], 3, 3, vec![]);
    let scroll = region_node("BasicDynamicScroll", vec![], 2, 2, vec![handle]);
    let root = region_node("Window", vec![], 0, 0, vec![scroll]);
    let found = UiUtils::find_node_in_tree(&String::from("ScrollHandle"), &root).unwrap();
    assert_eq!(found.ui_node.object_type_name.as_str(), "ScrollHandle");
    assert!(UiUtils::find_node_in_tree(&String::from("Missing"), &root).is_none());
}

#[test]
fn scroll_controls_find_their_handle() {
    let handle = region_node("ScrollHandle", vec![], 3, 3, vec![]);
    let scroll = region_node("BasicDynamicScroll", vec![], 2, 2, vec![handle]);
    let controls = ParserUtils::parse_scroll_controls(&scroll);
    assert!(controls.scroll_handle.is_some());
    assert_eq!(
        controls.scroll_handle.unwrap().ui_node.object_type_name.as_str(),
        "ScrollHandle"
    );
}

#[test]
fn zone_classification_table() {
    let mut zones: UiZones = UiConstants::initialize_mapper();
    let overview = region_node("OverviewWindowOld", vec![], 0, 0, vec![]);
    let directional = region_node("DirectionalScanner", vec![], 0, 0, vec![]);
    let probe = region_node("ProbeScannerWindow", vec![], 0, 0, vec![]);
    let other = region_node("Sprite", vec![], 0, 0, vec![]);
    UiConstants::check_and_insert_inportant_zone(&mut zones, &overview.ui_node.object_type_name.clone(), &overview);
    UiConstants::check_and_insert_inportant_zone(&mut zones, &directional.ui_node.object_type_name.clone(), &directional);
    UiConstants::check_and_insert_inportant_zone(&mut zones, &probe.ui_node.object_type_name.clone(), &probe);
    UiConstants::check_and_insert_inportant_zone(&mut zones, &other.ui_node.object_type_name.clone(), &other);
    assert_eq!(zones.overview.len(), 1);
    assert_eq!(zones.directional_scanner.len(), 1);
    assert_eq!(zones.probe_scanner.len(), 1);
    let names = UiConstants::overview_window();
    assert_eq!(names, vec!["OverView", "OverviewWindow", "OverviewWindowOld"]);
}

fn label_cell(text: &str, x: i32) -> UITreeNodeWithDisplayRegion {
    region_node("Label", vec![string_entry("_text", text)], x, 30, vec![])
}

#[test]
fn overview_entry_columns_align_by_x() {
    // Headers at x = 0 and x = 100; an entry row with texts under each.
    let header_distance = label_cell("Distance", 100);
    let header_name = label_cell("Name", 0);
    let headers_container = region_node("Headers", vec![], 0, 0, vec![header_name, header_distance]);
    let cell_name = label_cell("Rifter", 0);
    let cell_distance = label_cell("150 m", 100);
    let entry = region_node(
        "OverviewScrollEntry",
        vec![],
        0,
        20,
        vec![cell_name, cell_distance],
    );
    let window = region_node("OverviewWindowOld", vec![], 0, 0, vec![headers_container, entry]);
    let parsed = OverviewWindow::parse(&window, &labels());
    assert_eq!(parsed.entries_headers.len(), 2);
    assert_eq!(parsed.entries.len(), 1);
    let row = &parsed.entries[0];
    assert_eq!(row.object_name.as_ref().unwrap().as_str(), "Rifter");
    assert_eq!(row.object_distance.as_ref().unwrap().as_str(), "150 m");
    assert_eq!(row.object_distance_in_meters, 150);
    assert_eq!(row.object_alliance, None);
    // Texts come back in left-to-right order.
    let texts: Vec<&str> = row.texts_left_to_right.iter().map(|t| t.as_str()).collect();
    assert_eq!(texts, vec!["Rifter", "150 m"]);
    assert!(!row.is_player);
    assert_eq!(row.icon_sprite_color_percent, None);
}

#[test]
fn general_window_collects_zones() {
    let mut zones: UiZones = UiConstants::initialize_mapper();
    let probe_content = region_node("ContentList", vec![string_entry("_name", "__content")], 1, 1, vec![]);
    let probe = region_node("ProbeScannerWindow", vec![], 0, 0, vec![probe_content]);
    UiConstants::check_and_insert_inportant_zone(&mut zones, &String::from("ProbeScannerWindow"), &probe);
    let general = GeneralWindow::parse_general_window(&zones, &labels());
    assert_eq!(general.overview_windows.len(), 0);
    assert!(general.directional_scanner.is_none());
    let probe_parsed: &ProbeScanner = general.probe_scanner.as_ref().unwrap();
    assert_eq!(probe_parsed.entries.len(), 0);
}

#[test]
fn directional_entries_need_icon_texture() {
    // An entry-named row whose icon column lacks a texture parses to
    // nothing; with a texture it parses.
    let icon = region_node("Sprite", vec![string_entry("_texturePath", "res:ship.png")], 0, 0, vec![]);
    let icon_holder = region_node("Holder", vec![], 0, 0, vec![icon]);
    let name_text = region_node("Label", vec![string_entry("_text", "Pilot")], 0, 0, vec![]);
    let name_holder = region_node("Holder", vec![], 0, 0, vec![name_text]);
    let type_text = region_node("Label", vec![string_entry("_text", "Rifter")], 0, 0, vec![]);
    let type_holder = region_node("Holder", vec![], 0, 0, vec![type_text]);
    let dist_text = region_node("Label", vec![string_entry("_text", "7 km")], 0, 0, vec![]);
    let dist_holder = region_node("Holder", vec![], 0, 0, vec![dist_text]);
    let row = region_node(
        "ScanEntry",
        vec![string_entry("_name", "entry_0")],
        0,
        0,
        vec![dist_holder, type_holder, name_holder, icon_holder],
    );
    let scanner_node = region_node("DirectionalScanner", vec![], 0, 0, vec![row]);
    let parsed = DirectionalScanner::parse(&scanner_node);
    assert_eq!(parsed.entries.len(), 1);
    let entry = &parsed.entries[0];
    assert_eq!(entry.ship_icon.as_str(), "res:ship.png");
    assert_eq!(entry.names.as_str(), "Pilot");
    assert_eq!(entry.ship_type.as_str(), "Rifter");
    assert_eq!(entry.distance, 7000);
}
