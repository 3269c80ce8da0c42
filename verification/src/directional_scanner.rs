//! The directional scanner panel parser: result rows are descendants named
//! `entry_…`, each with fixed child positions for its columns.

use vstd::prelude::*;
use crate::ui_tree_node::UITreeNodeWithDisplayRegion;
use crate::ui_tree_node::RegionNodeView;
use crate::ui_tree_node::view_of_region_node;
use crate::ui_tree_node::view_of_region_children;
use crate::ui_tree_node::clone_region_node;
use crate::ui_constants::UiZones;
use crate::display_region_utils::DisplayRegionUtils;
use crate::display_region_utils::spec_region_descendants;
use crate::parser_utils::ParserUtils;
use crate::parser_utils::spec_string_property;
use crate::parser_utils::spec_distance_in_meters;
use crate::probe_scanner::spec_nested_child;
use crate::probe_scanner::spec_nested_text;
use crate::probe_scanner::nested_child;
use crate::probe_scanner::nested_text;
use crate::text::str_starts_with;
use crate::text::spec_starts_with;

verus! {

/// One parsed directional scanner panel.
#[derive(Debug)]
pub struct DirectionalScanner {
    pub ui_node: UITreeNodeWithDisplayRegion,
    pub entries: Vec<DirectionalScannerEntry>,
}

/// One parsed directional scanner row.
#[derive(Debug)]
pub struct DirectionalScannerEntry {
    pub distance: i32,
    pub names: String,
    pub ship_type: String,
    pub ship_icon: String,
}

/// The mathematical content of a directional scanner row.
pub struct DirectionalEntryView {
    pub distance: int,
    pub names: Seq<char>,
    pub ship_type: Seq<char>,
    pub ship_icon: Seq<char>,
}

/// The parsed row of a scan result node: present exactly when the ship
/// icon column (position three) carries a `_texturePath` string.
pub open spec fn spec_directional_entry(node: RegionNodeView) -> Option<DirectionalEntryView> {
    let icon = match spec_nested_child(node, 3) {
        Some(c) => spec_string_property(c.ui_node, "_texturePath"@),
        None => None,
    };
    match icon {
        None => None,
        Some(ship_icon) => Some(
            DirectionalEntryView {
                distance: spec_distance_in_meters(Some(spec_nested_text(node, 0))),
                names: spec_nested_text(node, 2),
                ship_type: spec_nested_text(node, 1),
                ship_icon,
            },
        ),
    }
}

/// What a parsed row holds.
pub open spec fn spec_directional_entry_matches(
    r: DirectionalScannerEntry,
    v: DirectionalEntryView,
) -> bool {
    &&& r.distance as int == v.distance
    &&& r.names@ == v.names
    &&& r.ship_type@ == v.ship_type
    &&& r.ship_icon@ == v.ship_icon
}

/// The parsed rows among the descendants: those named `entry_…` whose row
/// parses, in order.
pub open spec fn spec_directional_entries(s: Seq<RegionNodeView>) -> Seq<DirectionalEntryView>
    decreases s.len(),
{
    if s.len() == 0 {
        Seq::empty()
    } else {
        let rest = spec_directional_entries(s.drop_last());
        let named = match spec_string_property(s.last().ui_node, "_name"@) {
            Some(name) => spec_starts_with(name, "entry_"@),
            None => false,
        };
        if named {
            match spec_directional_entry(s.last()) {
                Some(v) => rest.push(v),
                None => rest,
            }
        } else {
            rest
        }
    }
}

/// What a parsed directional scanner panel holds.
pub open spec fn spec_directional_fields_ok(r: DirectionalScanner, node: RegionNodeView) -> bool {
    let descendants = spec_region_descendants(node.child_with_region);
    &&& view_of_region_node(r.ui_node) == node
    &&& r.entries@.len() == spec_directional_entries(descendants).len()
    &&& forall|i: int|
        0 <= i < r.entries@.len() ==> spec_directional_entry_matches(
            #[trigger] r.entries@[i],
            spec_directional_entries(descendants)[i],
        )
}

impl DirectionalScanner {
    /// Parses the first directional scanner panel of the zone map, if any.
    pub fn parse_directional_scanner(zones: &UiZones) -> (r: Option<DirectionalScanner>)
        ensures
            zones.directional_scanner@.len() == 0 ==> r is None,
            zones.directional_scanner@.len() > 0 ==> (r matches Some(scanner)
                && spec_directional_fields_ok(
                scanner,
                view_of_region_node(zones.directional_scanner@[0]),
            )),
    {
        if zones.directional_scanner.len() == 0 {
            return None;
        }
        Some(DirectionalScanner::parse(&zones.directional_scanner[0]))
    }

    /// Parses one directional scanner panel node.
    pub fn parse(region_node: &UITreeNodeWithDisplayRegion) -> (r: DirectionalScanner)
        ensures
            spec_directional_fields_ok(r, view_of_region_node(*region_node)),
    {
        let ghost descendants = spec_region_descendants(
            view_of_region_node(*region_node).child_with_region,
        );
        let childs_with_region = DisplayRegionUtils::list_descendants_with_display_region(
            &region_node.child_with_region,
        );
        let mut entries: Vec<DirectionalScannerEntry> = Vec::new();
        let n = childs_with_region.len();
        proof {
            assert(view_of_region_children(childs_with_region@) == descendants);
            assert(descendants.subrange(0, 0) =~= Seq::<RegionNodeView>::empty());
        }
        let mut i: usize = 0;
        while i < n
            invariant
                n == childs_with_region@.len(),
                view_of_region_children(childs_with_region@) == descendants,
                descendants.len() == n,
                0 <= i <= n,
                entries@.len() == spec_directional_entries(
                    descendants.subrange(0, i as int),
                ).len(),
                forall|k: int|
                    0 <= k < entries@.len() ==> spec_directional_entry_matches(
                        #[trigger] entries@[k],
                        spec_directional_entries(descendants.subrange(0, i as int))[k],
                    ),
            decreases n - i,
        {
            proof {
                assert(descendants.subrange(0, i + 1).drop_last() =~= descendants.subrange(
                    0,
                    i as int,
                ));
                assert(descendants.subrange(0, i + 1).last() == view_of_region_node(
                    childs_with_region@[i as int].node,
                ));
            }
            let child = &childs_with_region[i];
            let named = match ParserUtils::get_name_from_dict_entries(&child.node.ui_node) {
                Some(name_entry) => str_starts_with(name_entry.as_str(), "entry_"),
                None => false,
            };
            if named {
                match DirectionalScanner::extract_entry(&child.node) {
                    Some(entry) => {
                        entries.push(entry);
                    },
                    None => {},
                }
            }
            i = i + 1;
        }
        proof {
            assert(descendants.subrange(0, n as int) =~= descendants);
        }
        DirectionalScanner { ui_node: clone_region_node(region_node), entries }
    }

    /// Parses one result row; see [`spec_directional_entry`].
    pub fn extract_entry(node: &UITreeNodeWithDisplayRegion) -> (r: Option<
        DirectionalScannerEntry,
    >)
        ensures
            match spec_directional_entry(view_of_region_node(*node)) {
                Some(v) => r matches Some(entry) && spec_directional_entry_matches(entry, v),
                None => r is None,
            },
    {
        let ship_icon = match nested_child(node, 3) {
            Some(c) => ParserUtils::get_string_property_from_dict_entries(
                &c.ui_node,
                "_texturePath",
            ),
            None => None,
        };
        let ship_icon = match ship_icon {
            Some(icon) => icon,
            None => {
                return None;
            },
        };
        let ship_name = nested_text(node, 2);
        let ship_type = nested_text(node, 1);
        let distance_text = nested_text(node, 0);
        let distance = ParserUtils::parse_overview_entry_distance_in_meters_from_text(
            &Some(distance_text),
        );
        Some(DirectionalScannerEntry { distance, names: ship_name, ship_type, ship_icon })
    }
}

} // verus!
