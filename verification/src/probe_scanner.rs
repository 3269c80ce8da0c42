//! The probe scanner panel parser: fixed child positions under the
//! `__content` list node give each result row's columns.

use vstd::prelude::*;
use crate::ui_tree_node::UITreeNodeWithDisplayRegion;
use crate::ui_tree_node::RegionNodeView;
use crate::ui_tree_node::view_of_region_node;
use crate::ui_tree_node::view_of_region_children;
use crate::ui_tree_node::clone_region_node;
use crate::ui_tree_node::spec_display_text;
use crate::ui_tree_node::UiTreeNode;
use crate::ui_constants::UiZones;
use crate::display_region_utils::DisplayRegionUtils;
use crate::display_region_utils::spec_region_descendants;
use crate::parser_utils::ParserUtils;
use crate::parser_utils::spec_string_property;
use crate::parser_utils::spec_distance_in_meters;
use crate::overview_window::spec_find_by_name;

verus! {

/// One parsed probe scanner panel.
#[derive(Debug)]
pub struct ProbeScanner {
    pub ui_node: UITreeNodeWithDisplayRegion,
    pub entries: Vec<ProbeScannerEntry>,
}

/// One parsed probe scanner row.
#[derive(Debug)]
pub struct ProbeScannerEntry {
    pub distance_unformatted: String,
    pub distance: i32,
    pub id: String,
    pub name: String,
    pub signal_strength: String,
    pub type_emplacement: String,
}

/// The mathematical content of a probe scanner row.
pub struct ProbeEntryView {
    pub distance_unformatted: Seq<char>,
    pub distance: int,
    pub id: Seq<char>,
    pub name: Seq<char>,
    pub signal_strength: Seq<char>,
    pub type_emplacement: Seq<char>,
}

/// The grandchild of `n` at child position `i`, first grandchild, if both
/// exist.
pub open spec fn spec_nested_child(n: RegionNodeView, i: int) -> Option<RegionNodeView> {
    if 0 <= i < n.child_with_region.len() {
        let c = n.child_with_region[i];
        if c.child_with_region.len() > 0 {
            Some(c.child_with_region[0])
        } else {
            None
        }
    } else {
        None
    }
}

/// The display text of the nested child at position `i`, or empty.
pub open spec fn spec_nested_text(n: RegionNodeView, i: int) -> Seq<char> {
    match spec_nested_child(n, i) {
        Some(c) => spec_display_text(c.ui_node),
        None => Seq::empty(),
    }
}

/// The parsed row of a probe result node: present exactly when the node
/// has the expected shape (a first grandchild under position one) and the
/// icon column (position four) carries a `_texturePath` string.
pub open spec fn spec_probe_entry(node: RegionNodeView) -> Option<ProbeEntryView> {
    match spec_nested_child(node, 1) {
        None => None,
        Some(info) => {
            let icon = match spec_nested_child(info, 4) {
                Some(c) => spec_string_property(c.ui_node, "_texturePath"@),
                None => None,
            };
            match icon {
                None => None,
                Some(_) => {
                    let distance_text = spec_nested_text(info, 3);
                    Some(
                        ProbeEntryView {
                            distance_unformatted: distance_text,
                            distance: spec_distance_in_meters(Some(distance_text)),
                            id: spec_nested_text(info, 2),
                            name: spec_nested_text(info, 1),
                            signal_strength: Seq::empty(),
                            type_emplacement: spec_nested_text(info, 0),
                        },
                    )
                },
            }
        },
    }
}

/// What a parsed row holds.
pub open spec fn spec_probe_entry_matches(r: ProbeScannerEntry, v: ProbeEntryView) -> bool {
    &&& r.distance_unformatted@ == v.distance_unformatted
    &&& r.distance as int == v.distance
    &&& r.id@ == v.id
    &&& r.name@ == v.name
    &&& r.signal_strength@ == v.signal_strength
    &&& r.type_emplacement@ == v.type_emplacement
}

/// The parsed rows of the panel's `__content` children, in order, failed
/// rows omitted.
pub open spec fn spec_probe_entries(children: Seq<RegionNodeView>) -> Seq<ProbeEntryView>
    decreases children.len(),
{
    if children.len() == 0 {
        Seq::empty()
    } else {
        let rest = spec_probe_entries(children.drop_last());
        match spec_probe_entry(children.last()) {
            Some(v) => rest.push(v),
            None => rest,
        }
    }
}

/// What a parsed probe scanner panel holds: one row per well-shaped child
/// of the first descendant named `__content`, in order; no rows where that
/// node is absent.
pub open spec fn spec_probe_fields_ok(r: ProbeScanner, node: RegionNodeView) -> bool {
    let descendants = spec_region_descendants(node.child_with_region);
    &&& view_of_region_node(r.ui_node) == node
    &&& (match spec_find_by_name(descendants, "__content"@) {
        Some(content) => {
            &&& r.entries@.len() == spec_probe_entries(content.child_with_region).len()
            &&& forall|i: int|
                0 <= i < r.entries@.len() ==> spec_probe_entry_matches(
                    #[trigger] r.entries@[i],
                    spec_probe_entries(content.child_with_region)[i],
                )
        },
        None => r.entries@.len() == 0,
    })
}

impl ProbeScanner {
    /// Parses the first probe scanner panel of the zone map, if any.
    pub fn parse_probe_scanner(zones: &UiZones) -> (r: Option<ProbeScanner>)
        ensures
            zones.probe_scanner@.len() == 0 ==> r is None,
            zones.probe_scanner@.len() > 0 ==> (r matches Some(scanner)
                && spec_probe_fields_ok(
                scanner,
                view_of_region_node(zones.probe_scanner@[0]),
            )),
    {
        if zones.probe_scanner.len() == 0 {
            return None;
        }
        Some(ProbeScanner::parse(&zones.probe_scanner[0]))
    }

    /// Parses one probe scanner panel node.
    pub fn parse(region_node: &UITreeNodeWithDisplayRegion) -> (r: ProbeScanner)
        ensures
            spec_probe_fields_ok(r, view_of_region_node(*region_node)),
    {
        let ghost node_view = view_of_region_node(*region_node);
        let ghost descendants = spec_region_descendants(node_view.child_with_region);
        let childs_with_region = DisplayRegionUtils::list_descendants_with_display_region(
            &region_node.child_with_region,
        );
        let list_node_with_entries = find_first_by_name_local(&childs_with_region, "__content");
        let entries: Vec<ProbeScannerEntry> = match &list_node_with_entries {
            None => Vec::new(),
            Some(content) => {
                let ghost content_children = view_of_region_node(
                    *content,
                ).child_with_region;
                let mut out: Vec<ProbeScannerEntry> = Vec::new();
                let n = content.child_with_region.len();
                proof {
                    assert(content_children.subrange(0, 0) =~= Seq::<RegionNodeView>::empty());
                }
                let mut i: usize = 0;
                while i < n
                    invariant
                        n == content.child_with_region@.len(),
                        content_children == view_of_region_node(*content).child_with_region,
                        content_children.len() == n,
                        0 <= i <= n,
                        out@.len() == spec_probe_entries(
                            content_children.subrange(0, i as int),
                        ).len(),
                        forall|k: int|
                            0 <= k < out@.len() ==> spec_probe_entry_matches(
                                #[trigger] out@[k],
                                spec_probe_entries(content_children.subrange(0, i as int))[k],
                            ),
                    decreases n - i,
                {
                    proof {
                        assert(content_children.subrange(0, i + 1).drop_last()
                            =~= content_children.subrange(0, i as int));
                        assert(content_children.subrange(0, i + 1).last() == view_of_region_node(
                            content.child_with_region@[i as int].node,
                        ));
                    }
                    match ProbeScanner::extract_entry(&content.child_with_region[i].node) {
                        Some(entry) => {
                            out.push(entry);
                        },
                        None => {},
                    }
                    i = i + 1;
                }
                proof {
                    assert(content_children.subrange(0, n as int) =~= content_children);
                }
                out
            },
        };
        ProbeScanner { ui_node: clone_region_node(region_node), entries }
    }

    /// Parses one result row; see [`spec_probe_entry`].
    pub fn extract_entry(node: &UITreeNodeWithDisplayRegion) -> (r: Option<ProbeScannerEntry>)
        ensures
            match spec_probe_entry(view_of_region_node(*node)) {
                Some(v) => r matches Some(entry) && spec_probe_entry_matches(entry, v),
                None => r is None,
            },
    {
        let info = match nested_child(node, 1) {
            Some(n) => n,
            None => {
                return None;
            },
        };
        let type_site_icon = match nested_child(&info, 4) {
            Some(c) => ParserUtils::get_string_property_from_dict_entries(
                &c.ui_node,
                "_texturePath",
            ),
            None => None,
        };
        if type_site_icon.is_none() {
            return None;
        }
        let distance_text = nested_text(&info, 3);
        let id = nested_text(&info, 2);
        let name = nested_text(&info, 1);
        let type_emplacement = nested_text(&info, 0);
        let distance = ParserUtils::parse_overview_entry_distance_in_meters_from_text(
            &Some(distance_text.clone()),
        );
        Some(
            ProbeScannerEntry {
                distance_unformatted: distance_text,
                distance,
                id,
                name,
                signal_strength: String::new(),
                type_emplacement,
            },
        )
    }
}

/// The grandchild at child position `i`, first grandchild, as a copy.
pub fn nested_child(n: &UITreeNodeWithDisplayRegion, i: usize) -> (r: Option<
    UITreeNodeWithDisplayRegion,
>)
    ensures
        match spec_nested_child(view_of_region_node(*n), i as int) {
            Some(c) => r matches Some(out) && view_of_region_node(out) == c,
            None => r is None,
        },
{
    if i < n.child_with_region.len() {
        let c = &n.child_with_region[i].node;
        proof {
            assert(view_of_region_node(*n).child_with_region[i as int] == view_of_region_node(
                n.child_with_region@[i as int].node,
            ));
        }
        if c.child_with_region.len() > 0 {
            proof {
                assert(view_of_region_node(*c).child_with_region[0] == view_of_region_node(
                    c.child_with_region@[0].node,
                ));
            }
            Some(clone_region_node(&c.child_with_region[0].node))
        } else {
            None
        }
    } else {
        None
    }
}

/// The display text of the nested child at position `i`, or empty.
pub fn nested_text(n: &UITreeNodeWithDisplayRegion, i: usize) -> (r: String)
    ensures
        r@ == spec_nested_text(view_of_region_node(*n), i as int),
{
    match nested_child(n, i) {
        Some(c) => UiTreeNode::get_display_text(&c.ui_node),
        None => String::new(),
    }
}

/// The first child named `name`, as a copy.
fn find_first_by_name_local(
    children: &Vec<crate::ui_tree_node::ChildWithRegion>,
    name: &str,
) -> (r: Option<UITreeNodeWithDisplayRegion>)
    ensures
        match spec_find_by_name(view_of_region_children(children@), name@) {
            Some(node) => r matches Some(out) && view_of_region_node(out) == node,
            None => r is None,
        },
{
    crate::overview_window::find_first_by_name_public(children, name)
}

} // verus!
