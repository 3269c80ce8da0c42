//! Numeric property extraction and occlusion classification.

use vstd::prelude::*;
use crate::values::DecodedValue;
use crate::values::DictEntry;
use crate::values::ValueView;
use crate::values::EntryView;
use crate::values::view_of_value;
use crate::values::view_of_entries;
use crate::values::spec_entries_has_key;
use crate::values::spec_entries_lookup;
use crate::values::dict_entries_find;
use crate::ui_tree_node::UiTreeNode;
use crate::ui_tree_node::UITreeNodeWithDisplayRegion;
use crate::ui_tree_node::view_of_node;
use crate::text::spec_is_int_string;
use crate::text::spec_int_string_value;
use crate::text::parse_i32_str;
use crate::values::str_eq;

verus! {

/// The integer a decoded value stands for: a stored integer that fits 32
/// bits, or a numeric string; anything else (a non-numeric string included)
/// yields nothing.
pub open spec fn spec_extract_int(v: ValueView) -> Option<int> {
    match v {
        ValueView::Int(w) => if i32::MIN <= w.spec_i64() <= i32::MAX {
            Some(w.spec_i64())
        } else {
            None
        },
        ValueView::Str(s) => if spec_is_int_string(s) && i32::MIN <= spec_int_string_value(s)
            <= i32::MAX {
            Some(spec_int_string_value(s))
        } else {
            None
        },
        _ => None,
    }
}

/// See [`spec_extract_int`]: accepts a raw 32-bit int, the two-variant
/// numeric wrapper (when lossless), and a numeric string, and rejects
/// non-numeric strings by returning `None`, never failing.
pub fn extract_int_from_int_or_string(object_value: &DecodedValue) -> (r: Option<i32>)
    ensures
        match spec_extract_int(view_of_value(*object_value)) {
            Some(v) => r matches Some(x) && x as int == v,
            None => r is None,
        },
{
    match object_value {
        DecodedValue::Int(w) => w.get_i32(),
        DecodedValue::Str(s) => parse_i32_str(s.as_str()),
        _ => None,
    }
}

/// The integer stored under `name`, if the key is present and its value
/// reads as an integer.
pub open spec fn spec_fixed_number(entries: Seq<EntryView>, name: Seq<char>) -> Option<int> {
    if spec_entries_has_key(entries, name) {
        spec_extract_int(spec_entries_lookup(entries, name))
    } else {
        None
    }
}

/// The type names defined to occlude all following siblings in z-order.
pub open spec fn spec_node_occludes(name: Seq<char>) -> bool {
    ||| name == "SortHeaders"@
    ||| name == "ContextMenu"@
    ||| name == "OverviewWindow"@
    ||| name == "DronesWindow"@
    ||| name == "SelectedItemWnd"@
    ||| name == "InventoryPrimary"@
    ||| name == "ChatWindowStack"@
}

/// Property lookup and occlusion helpers.
pub struct UiUtils;

impl UiUtils {
    /// The integer stored under `property_name` among the entries, if any.
    pub fn fixed_number_from_property_name(
        property_name: &str,
        entries_of_interest: &Vec<DictEntry>,
    ) -> (r: Option<i32>)
        ensures
            match spec_fixed_number(view_of_entries(entries_of_interest@), property_name@) {
                Some(v) => r matches Some(x) && x as int == v,
                None => r is None,
            },
    {
        match dict_entries_find(entries_of_interest, property_name) {
            Some(value) => extract_int_from_int_or_string(value),
            None => None,
        }
    }

    /// The integer stored under `property_name` on the node, if any.
    pub fn fixed_number_from_ui_node(property_name: &str, ui_node: &UiTreeNode) -> (r: Option<
        i32,
    >)
        ensures
            match spec_fixed_number(
                view_of_node(*ui_node).dict_entries_of_interest,
                property_name@,
            ) {
                Some(v) => r matches Some(x) && x as int == v,
                None => r is None,
            },
    {
        UiUtils::fixed_number_from_property_name(property_name, &ui_node.dict_entries_of_interest)
    }

    /// Whether the node's type occludes all following siblings in z-order.
    pub fn node_occludes_following_nodes(node: &UITreeNodeWithDisplayRegion) -> (r: bool)
        ensures
            r == spec_node_occludes(node.ui_node.object_type_name@),
    {
        let name = node.ui_node.object_type_name.as_str();
        str_eq(name, "SortHeaders") || str_eq(name, "ContextMenu") || str_eq(
            name,
            "OverviewWindow",
        ) || str_eq(name, "DronesWindow") || str_eq(name, "SelectedItemWnd") || str_eq(
            name,
            "InventoryPrimary",
        ) || str_eq(name, "ChatWindowStack")
    }
}


/// The first node of the given type in the region tree, the node itself
/// first, then its region-bearing children depth-first.
pub open spec fn spec_find_node_in_tree(n: crate::ui_tree_node::RegionNodeView, wanted: Seq<char>) -> Option<
    crate::ui_tree_node::RegionNodeView,
>
    decreases n, 1int,
{
    if n.ui_node.object_type_name == wanted {
        Some(n)
    } else {
        spec_find_node_in_forest(n.child_with_region, wanted)
    }
}

/// The first match in a forest, in order.
pub open spec fn spec_find_node_in_forest(
    s: Seq<crate::ui_tree_node::RegionNodeView>,
    wanted: Seq<char>,
) -> Option<crate::ui_tree_node::RegionNodeView>
    decreases s, 0int,
{
    if s.len() == 0 {
        None
    } else {
        match spec_find_node_in_tree(s[0], wanted) {
            Some(found) => Some(found),
            None => spec_find_node_in_forest(s.drop_first(), wanted),
        }
    }
}

impl UiUtils {
    /// The first node of the given type in the region tree, as a copy: the
    /// root itself counts, then its region-bearing subtrees in order.
    pub fn find_node_in_tree(
        final_node_type: &String,
        parent_node: &UITreeNodeWithDisplayRegion,
    ) -> (r: Option<UITreeNodeWithDisplayRegion>)
        ensures
            match spec_find_node_in_tree(
                crate::ui_tree_node::view_of_region_node(*parent_node),
                final_node_type@,
            ) {
                Some(found) => r matches Some(out) && crate::ui_tree_node::view_of_region_node(
                    out,
                ) == found,
                None => r is None,
            },
        decreases *parent_node, 1int,
    {
        if str_eq(final_node_type.as_str(), parent_node.ui_node.object_type_name.as_str()) {
            return Some(crate::ui_tree_node::clone_region_node(parent_node));
        }
        let ghost views = crate::ui_tree_node::view_of_region_children(
            parent_node.child_with_region@,
        );
        let n = parent_node.child_with_region.len();
        proof {
            assert(views.subrange(0, n as int) =~= views);
        }
        let mut i: usize = 0;
        while i < n
            invariant
                n == parent_node.child_with_region@.len(),
                views == crate::ui_tree_node::view_of_region_children(
                    parent_node.child_with_region@,
                ),
                views.len() == n,
                0 <= i <= n,
                parent_node.ui_node.object_type_name@ != final_node_type@,
                spec_find_node_in_forest(views, final_node_type@) == spec_find_node_in_forest(
                    views.subrange(i as int, n as int),
                    final_node_type@,
                ),
            decreases n - i,
        {
            proof {
                assert(decreases_to!(*parent_node => parent_node.child_with_region@[i as int]));
                assert(views.subrange(i as int, n as int)[0] == views[i as int]);
                assert(views.subrange(i as int, n as int).drop_first() =~= views.subrange(
                    i + 1,
                    n as int,
                ));
            }
            let child = &parent_node.child_with_region[i];
            match UiUtils::find_node_in_tree(final_node_type, &child.node) {
                Some(found) => {
                    proof {
                        assert(spec_find_node_in_tree(views[i as int], final_node_type@)
                            == Some(crate::ui_tree_node::view_of_region_node(found)));
                        assert(spec_find_node_in_forest(
                            views.subrange(i as int, n as int),
                            final_node_type@,
                        ) == Some(crate::ui_tree_node::view_of_region_node(found)));
                        assert(crate::ui_tree_node::view_of_region_node(
                            *parent_node,
                        ).child_with_region == views);
                        assert(spec_find_node_in_tree(
                            crate::ui_tree_node::view_of_region_node(*parent_node),
                            final_node_type@,
                        ) == Some(crate::ui_tree_node::view_of_region_node(found)));
                    }
                    return Some(found);
                },
                None => {},
            }
            i = i + 1;
        }
        proof {
            assert(views.subrange(n as int, n as int) =~= Seq::<
                crate::ui_tree_node::RegionNodeView,
            >::empty());
        }
        None
    }
}

} // verus!
