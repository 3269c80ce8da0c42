//! The overview panel parser: list-column alignment by x-coordinate
//! proximity, hint-text matching and color percentage lookups over the
//! decoded tree.

use vstd::prelude::*;
use crate::values::ColorComponents;
use crate::values::str_eq;
use crate::ui_tree_node::UiTreeNode;
use crate::ui_tree_node::UITreeNodeWithDisplayRegion;
use crate::ui_tree_node::NodeView;
use crate::ui_tree_node::RegionNodeView;
use crate::ui_tree_node::ScrollControls;
use crate::ui_tree_node::view_of_node;
use crate::ui_tree_node::view_of_region_node;
use crate::ui_tree_node::view_of_region_children;
use crate::ui_tree_node::view_of_strings;
use crate::ui_tree_node::clone_region_node;
use crate::ui_tree_node::spec_descendants;
use crate::ui_constants::UiZones;
use crate::display_region_utils::DisplayRegionUtils;
use crate::display_region_utils::spec_region_descendants;
use crate::parser_utils::ParserUtils;
use crate::parser_utils::spec_display_texts_of;
use crate::parser_utils::spec_text_node_views;
use crate::parser_utils::spec_text_pair_views;
use crate::parser_utils::spec_list_view_cells;
use crate::parser_utils::spec_cells_lookup;
use crate::parser_utils::spec_string_property;
use crate::parser_utils::spec_color_property;
use crate::parser_utils::spec_find_by_type;
use crate::parser_utils::spec_distance_in_meters;
use crate::parser_utils::find_first_by_type;
use crate::text::ascii_lowercase;
use crate::text::spec_lower;
use crate::text::str_contains;
use crate::text::spec_str_contains;

verus! {

/// The localized column names and hint phrases the overview parser matches
/// against; localization itself is the host's concern.
#[derive(Debug)]
pub struct OverviewLabels {
    pub distance: String,
    pub name: String,
    pub object_type: String,
    pub alliance: String,
    pub is_jamming_me: String,
    pub is_warp_disrupting_me: String,
}

/// The label texts.
pub struct LabelsView {
    pub distance: Seq<char>,
    pub name: Seq<char>,
    pub object_type: Seq<char>,
    pub alliance: Seq<char>,
    pub is_jamming_me: Seq<char>,
    pub is_warp_disrupting_me: Seq<char>,
}

/// The label texts.
pub open spec fn view_of_labels(l: OverviewLabels) -> LabelsView {
    LabelsView {
        distance: l.distance@,
        name: l.name@,
        object_type: l.object_type@,
        alliance: l.alliance@,
        is_jamming_me: l.is_jamming_me@,
        is_warp_disrupting_me: l.is_warp_disrupting_me@,
    }
}

/// One parsed overview panel.
#[derive(Debug)]
pub struct OverviewWindow {
    pub ui_node: UITreeNodeWithDisplayRegion,
    pub entries_headers: Vec<(String, UITreeNodeWithDisplayRegion)>,
    pub entries: Vec<OverviewWindowEntry>,
    pub scroll_controls: Option<ScrollControls>,
}

/// One parsed overview row.
#[derive(Debug)]
pub struct OverviewWindowEntry {
    pub ui_node: UITreeNodeWithDisplayRegion,
    pub texts_left_to_right: Vec<String>,
    pub cells_texts: Vec<(String, String)>,
    pub object_distance: Option<String>,
    pub object_distance_in_meters: i32,
    pub object_name: Option<String>,
    pub object_type: Option<String>,
    pub object_alliance: Option<String>,
    pub is_player: bool,
    pub icon_sprite_color_percent: Option<ColorComponents>,
    pub names_under_space_object_icon: Vec<String>,
    pub bg_color_fills_percent: Vec<ColorComponents>,
    pub right_aligned_icons_hints: Vec<String>,
    pub common_indications: OverviewWindowEntryCommonIndications,
    pub opacity_percent: Option<i32>,
}

/// The row-level indicator flags.
#[derive(Debug, Clone, Copy, PartialEq, Eq, Structural)]
pub struct OverviewWindowEntryCommonIndications {
    pub targeting: bool,
    pub targeted_by_me: bool,
    pub is_jamming_me: bool,
    pub is_warp_disrupting_me: bool,
}

/// Inserts a text-node pair into a list sorted by ascending absolute x,
/// after every pair at the same x (a stable insertion).
pub open spec fn spec_sorted_insert(
    s: Seq<(Seq<char>, RegionNodeView)>,
    p: (Seq<char>, RegionNodeView),
) -> Seq<(Seq<char>, RegionNodeView)>
    decreases s.len(),
{
    if s.len() == 0 {
        seq![p]
    } else if s[0].1.total_display_region.x > p.1.total_display_region.x {
        seq![p] + s
    } else {
        seq![s[0]] + spec_sorted_insert(s.drop_first(), p)
    }
}

/// The stable insertion sort of text-node pairs by ascending absolute x.
pub open spec fn spec_sort_by_x(s: Seq<(Seq<char>, RegionNodeView)>) -> Seq<
    (Seq<char>, RegionNodeView),
>
    decreases s.len(),
{
    if s.len() == 0 {
        Seq::empty()
    } else {
        spec_sorted_insert(spec_sort_by_x(s.drop_last()), s.last())
    }
}

/// The texts of a text-node pair list.
pub open spec fn spec_texts_of(s: Seq<(Seq<char>, RegionNodeView)>) -> Seq<Seq<char>> {
    Seq::new(s.len(), |i: int| s[i].0)
}

/// The colors of descendants named `bgColor` of type `Fill` whose `_color`
/// decoded, in order.
pub open spec fn spec_bg_colors(s: Seq<RegionNodeView>) -> Seq<ColorComponents>
    decreases s.len(),
{
    if s.len() == 0 {
        Seq::empty()
    } else {
        let rest = spec_bg_colors(s.drop_last());
        let n = s.last();
        if spec_string_property(n.ui_node, "_name"@) == Some("bgColor"@)
            && n.ui_node.object_type_name == "Fill"@ {
            match spec_color_property(n.ui_node) {
                Some(c) => rest.push(c),
                None => rest,
            }
        } else {
            rest
        }
    }
}

/// The non-empty hint texts found below descendants named
/// `rightAlignedIconContainer`, in order.
pub open spec fn spec_right_hints(s: Seq<RegionNodeView>) -> Seq<Seq<char>>
    decreases s.len(), 1int,
{
    if s.len() == 0 {
        Seq::empty()
    } else {
        spec_right_hints(s.drop_last()) + (if spec_string_property(
            s.last().ui_node,
            "_name"@,
        ) == Some("rightAlignedIconContainer"@) {
            spec_hints_of(spec_region_descendants(s.last().child_with_region))
        } else {
            Seq::empty()
        })
    }
}

/// The non-empty hint texts of the given nodes, in order.
pub open spec fn spec_hints_of(s: Seq<RegionNodeView>) -> Seq<Seq<char>>
    decreases s.len(), 0int,
{
    if s.len() == 0 {
        Seq::empty()
    } else {
        let rest = spec_hints_of(s.drop_last());
        match spec_string_property(s.last().ui_node, "_hint"@) {
            Some(hint) => if hint.len() > 0 {
                rest.push(hint)
            } else {
                rest
            },
            None => rest,
        }
    }
}

/// The first node whose lowercased type name contains the lowercased
/// needle, scanning in order.
pub open spec fn spec_find_type_contains(s: Seq<RegionNodeView>, needle: Seq<char>) -> Option<
    RegionNodeView,
>
    decreases s.len(),
{
    if s.len() == 0 {
        None
    } else if spec_str_contains(
        spec_lower(s[0].ui_node.object_type_name),
        spec_lower(needle),
    ) {
        Some(s[0])
    } else {
        spec_find_type_contains(s.drop_first(), needle)
    }
}

/// The first node whose lowercased type name equals the lowercased needle.
pub open spec fn spec_find_type_ignore_case(s: Seq<RegionNodeView>, needle: Seq<char>) -> Option<
    RegionNodeView,
>
    decreases s.len(),
{
    if s.len() == 0 {
        None
    } else if spec_lower(s[0].ui_node.object_type_name) == spec_lower(needle) {
        Some(s[0])
    } else {
        spec_find_type_ignore_case(s.drop_first(), needle)
    }
}

/// The distinct `_name` properties among the given raw nodes, first
/// occurrences first.
pub open spec fn spec_distinct_names(s: Seq<NodeView>) -> Seq<Seq<char>>
    decreases s.len(),
{
    if s.len() == 0 {
        Seq::empty()
    } else {
        let rest = spec_distinct_names(s.drop_last());
        match spec_string_property(s.last(), "_name"@) {
            Some(name) => if rest.contains(name) {
                rest
            } else {
                rest.push(name)
            },
            None => rest,
        }
    }
}

/// Whether some hint contains the needle, both lowercased.
pub open spec fn spec_hints_contain(hints: Seq<Seq<char>>, needle: Seq<char>) -> bool {
    exists|i: int|
        0 <= i < hints.len() && spec_str_contains(
            spec_lower(#[trigger] hints[i]),
            spec_lower(needle),
        )
}

impl OverviewWindow {
    /// Parses every overview panel found in the zone map, in order.
    pub fn parse_overview_windows(zones: &UiZones, labels: &OverviewLabels) -> (r: Vec<
        OverviewWindow,
    >)
        ensures
            r@.len() == zones.overview@.len(),
            forall|i: int|
                0 <= i < r@.len() ==> spec_overview_fields_ok(
                    #[trigger] r@[i],
                    view_of_region_node(zones.overview@[i]),
                    view_of_labels(*labels),
                ),
    {
        let mut out: Vec<OverviewWindow> = Vec::new();
        let n = zones.overview.len();
        let mut i: usize = 0;
        while i < n
            invariant
                n == zones.overview@.len(),
                0 <= i <= n,
                out@.len() == i,
                forall|k: int|
                    0 <= k < i ==> spec_overview_fields_ok(
                        #[trigger] out@[k],
                        view_of_region_node(zones.overview@[k]),
                        view_of_labels(*labels),
                    ),
            decreases n - i,
        {
            out.push(OverviewWindow::parse_overview_window(&zones.overview[i], labels));
            i = i + 1;
        }
        out
    }

    /// Parses one overview panel node.
    pub fn parse_overview_window(
        region_node: &UITreeNodeWithDisplayRegion,
        labels: &OverviewLabels,
    ) -> (r: OverviewWindow)
        ensures
            spec_overview_fields_ok(r, view_of_region_node(*region_node), view_of_labels(*labels)),
    {
        OverviewWindow::parse(region_node, labels)
    }

    /// Parses one overview panel node: its scroll control, header texts, and
    /// one parsed entry per `OverviewScrollEntry` descendant, in order.
    pub fn parse(
        overview_window_node: &UITreeNodeWithDisplayRegion,
        labels: &OverviewLabels,
    ) -> (r: OverviewWindow)
        ensures
            spec_overview_fields_ok(
                r,
                view_of_region_node(*overview_window_node),
                view_of_labels(*labels),
            ),
    {
        let ghost node_view = view_of_region_node(*overview_window_node);
        let ghost descendants = spec_region_descendants(node_view.child_with_region);
        let descendant_display_region = DisplayRegionUtils::list_descendants_with_display_region(
            &overview_window_node.child_with_region,
        );
        let scroll_node = find_type_contains(&descendant_display_region, "basicdynamicscroll");
        let scroll_controls = match scroll_node {
            Some(node) => Some(ParserUtils::parse_scroll_controls(&node)),
            None => None,
        };
        let headers_container_node = find_type_contains(&descendant_display_region, "headers");
        let entries_headers = match &headers_container_node {
            Some(node) => ParserUtils::get_all_contained_display_texts_with_region(node),
            None => Vec::new(),
        };
        proof {
            match spec_find_type_contains(descendants, "headers"@) {
                Some(_) => {},
                None => {
                    assert(spec_text_node_views(entries_headers@) =~= Seq::<
                        (Seq<char>, RegionNodeView),
                    >::empty());
                },
            }
        }
        let mut entries: Vec<OverviewWindowEntry> = Vec::new();
        let n = descendant_display_region.len();
        proof {
            assert(view_of_region_children(descendant_display_region@) == descendants);
            assert(descendants.subrange(0, 0) =~= Seq::<RegionNodeView>::empty());
        }
        let mut i: usize = 0;
        while i < n
            invariant
                n == descendant_display_region@.len(),
                view_of_region_children(descendant_display_region@) == descendants,
                descendants.len() == n,
                0 <= i <= n,
                spec_text_node_views(entries_headers@) == spec_overview_headers(node_view),
                entries@.len() == spec_scroll_entries(descendants.subrange(0, i as int)).len(),
                forall|k: int|
                    0 <= k < entries@.len() ==> spec_entry_fields_ok(
                        #[trigger] entries@[k],
                        spec_overview_headers(node_view),
                        spec_scroll_entries(descendants.subrange(0, i as int))[k],
                        view_of_labels(*labels),
                    ),
            decreases n - i,
        {
            proof {
                assert(descendants.subrange(0, i + 1).drop_last() =~= descendants.subrange(
                    0,
                    i as int,
                ));
                assert(descendants.subrange(0, i + 1).last() == view_of_region_node(
                    descendant_display_region@[i as int].node,
                ));
            }
            let child = &descendant_display_region[i];
            if str_eq(child.node.ui_node.object_type_name.as_str(), "OverviewScrollEntry") {
                let entry = OverviewWindow::parse_overview_window_entry(
                    &entries_headers,
                    &child.node,
                    labels,
                );
                entries.push(entry);
            }
            i = i + 1;
        }
        proof {
            assert(descendants.subrange(0, n as int) =~= descendants);
        }
        OverviewWindow {
            ui_node: clone_region_node(overview_window_node),
            entries_headers,
            entries,
            scroll_controls,
        }
    }

    /// Parses one overview row; see [`spec_entry_fields_ok`] for what every
    /// field holds.
    pub fn parse_overview_window_entry(
        entry_headers: &Vec<(String, UITreeNodeWithDisplayRegion)>,
        overview_window_entry_node: &UITreeNodeWithDisplayRegion,
        labels: &OverviewLabels,
    ) -> (r: OverviewWindowEntry)
        ensures
            spec_entry_fields_ok(
                r,
                spec_text_node_views(entry_headers@),
                view_of_region_node(*overview_window_entry_node),
                view_of_labels(*labels),
            ),
    {
        let ghost entry_view = view_of_region_node(*overview_window_entry_node);
        let ghost descendants = spec_region_descendants(entry_view.child_with_region);
        let list_view_entry = ParserUtils::parse_list_view_entry(
            entry_headers,
            overview_window_entry_node,
        );
        proof {
            if entry_headers@.len() == 0 {
                assert(spec_text_pair_views(list_view_entry@) =~= Seq::<
                    (Seq<char>, Seq<char>),
                >::empty());
            }
        }
        let texts_left_to_right = Self::extract_text_left_to_right(overview_window_entry_node);
        let object_distance = cells_lookup(&list_view_entry, labels.distance.as_str());
        let object_distance_in_meters =
            ParserUtils::parse_overview_entry_distance_in_meters_from_text(&object_distance);
        let object_name = cells_lookup(&list_view_entry, labels.name.as_str());
        let object_type = cells_lookup(&list_view_entry, labels.object_type.as_str());
        let object_alliance = cells_lookup(&list_view_entry, labels.alliance.as_str());
        let bg_color_fills_percent = Self::get_bg_color_fills_percent(overview_window_entry_node);
        let right_aligned_icons_hints = Self::get_right_aligned_icons_hints(
            overview_window_entry_node,
        );
        let opacity_percent = ParserUtils::get_opacity_from_dict_entries(
            &overview_window_entry_node.ui_node,
        );
        let list_descendants_with_display_region =
            DisplayRegionUtils::list_descendants_with_display_region(
            &overview_window_entry_node.child_with_region,
        );
        let space_object_icon_node = find_type_ignore_case(
            &list_descendants_with_display_region,
            "spaceObjectIcon",
        );
        let (icon_sprite_color_percent, is_player, names_under_space_object_icon): (
            Option<ColorComponents>,
            bool,
            Vec<String>,
        ) = match &space_object_icon_node {
            Some(icon) => {
                let icon_descendants = DisplayRegionUtils::list_descendants_with_display_region(
                    &icon.child_with_region,
                );
                let sprite = find_first_by_name_public(&icon_descendants, "iconSprite");
                let color = match &sprite {
                    Some(sprite_node) => ParserUtils::get_color_percentage_from_dict_entries(
                        &sprite_node.ui_node,
                    ),
                    None => None,
                };
                let player = find_first_by_type(&icon_descendants, "FlagIconWithState").is_some();
                let names = distinct_names_under(&icon.ui_node);
                (color, player, names)
            },
            None => (None, false, Vec::new()),
        };
        proof {
            match spec_find_type_ignore_case(descendants, "spaceObjectIcon"@) {
                Some(_) => {},
                None => {
                    assert(view_of_strings(names_under_space_object_icon@) =~= Seq::<
                        Seq<char>,
                    >::empty());
                },
            }
        }
        let is_jamming_me = hints_contain_ignoring_case(
            &right_aligned_icons_hints,
            labels.is_jamming_me.as_str(),
        );
        let is_warp_disrupting_me = hints_contain_ignoring_case(
            &right_aligned_icons_hints,
            labels.is_warp_disrupting_me.as_str(),
        );
        let targeting = strings_contain(&names_under_space_object_icon, "targeting");
        let targeted_by_me = strings_contain(
            &names_under_space_object_icon,
            "targetedByMeIndicator",
        );
        let common_indications = OverviewWindowEntryCommonIndications {
            targeting,
            targeted_by_me,
            is_jamming_me,
            is_warp_disrupting_me,
        };
        OverviewWindowEntry {
            ui_node: clone_region_node(overview_window_entry_node),
            texts_left_to_right,
            cells_texts: list_view_entry,
            object_distance,
            object_distance_in_meters,
            object_name,
            object_type,
            object_alliance,
            is_player,
            icon_sprite_color_percent,
            names_under_space_object_icon,
            bg_color_fills_percent,
            right_aligned_icons_hints,
            common_indications,
            opacity_percent,
        }
    }

    /// The colors of the row's `bgColor` fill descendants, in order.
    pub fn get_bg_color_fills_percent(
        overview_window_entry_node: &UITreeNodeWithDisplayRegion,
    ) -> (r: Vec<ColorComponents>)
        ensures
            r@ == spec_bg_colors(
                spec_region_descendants(
                    view_of_region_children(overview_window_entry_node.child_with_region@),
                ),
            ),
    {
        let ghost descendants = spec_region_descendants(
            view_of_region_children(overview_window_entry_node.child_with_region@),
        );
        let list = DisplayRegionUtils::list_descendants_with_display_region(
            &overview_window_entry_node.child_with_region,
        );
        let mut out: Vec<ColorComponents> = Vec::new();
        let n = list.len();
        proof {
            assert(view_of_region_children(list@) == descendants);
            assert(descendants.subrange(0, 0) =~= Seq::<RegionNodeView>::empty());
        }
        let mut i: usize = 0;
        while i < n
            invariant
                n == list@.len(),
                view_of_region_children(list@) == descendants,
                descendants.len() == n,
                0 <= i <= n,
                out@ == spec_bg_colors(descendants.subrange(0, i as int)),
            decreases n - i,
        {
            proof {
                assert(descendants.subrange(0, i + 1).drop_last() =~= descendants.subrange(
                    0,
                    i as int,
                ));
                assert(descendants.subrange(0, i + 1).last() == view_of_region_node(
                    list@[i as int].node,
                ));
            }
            let child = &list[i];
            let name_matches = match ParserUtils::get_name_from_dict_entries(&child.node.ui_node) {
                Some(name) => str_eq(name.as_str(), "bgColor"),
                None => false,
            };
            if name_matches && str_eq(child.node.ui_node.object_type_name.as_str(), "Fill") {
                match ParserUtils::get_color_percentage_from_dict_entries(&child.node.ui_node) {
                    Some(color) => {
                        out.push(color);
                    },
                    None => {},
                }
            }
            i = i + 1;
        }
        proof {
            assert(descendants.subrange(0, n as int) =~= descendants);
        }
        out
    }

    /// The non-empty hints below the row's right-aligned icon containers.
    pub fn get_right_aligned_icons_hints(
        overview_window_entry_node: &UITreeNodeWithDisplayRegion,
    ) -> (r: Vec<String>)
        ensures
            view_of_strings(r@) == spec_right_hints(
                spec_region_descendants(
                    view_of_region_children(overview_window_entry_node.child_with_region@),
                ),
            ),
    {
        let ghost descendants = spec_region_descendants(
            view_of_region_children(overview_window_entry_node.child_with_region@),
        );
        let list = DisplayRegionUtils::list_descendants_with_display_region(
            &overview_window_entry_node.child_with_region,
        );
        let mut out: Vec<String> = Vec::new();
        let n = list.len();
        proof {
            assert(view_of_region_children(list@) == descendants);
            assert(descendants.subrange(0, 0) =~= Seq::<RegionNodeView>::empty());
            assert(view_of_strings(out@) =~= Seq::<Seq<char>>::empty());
        }
        let mut i: usize = 0;
        while i < n
            invariant
                n == list@.len(),
                view_of_region_children(list@) == descendants,
                descendants.len() == n,
                0 <= i <= n,
                view_of_strings(out@) == spec_right_hints(descendants.subrange(0, i as int)),
            decreases n - i,
        {
            proof {
                assert(descendants.subrange(0, i + 1).drop_last() =~= descendants.subrange(
                    0,
                    i as int,
                ));
                assert(descendants.subrange(0, i + 1).last() == view_of_region_node(
                    list@[i as int].node,
                ));
            }
            let child = &list[i];
            let name_matches = match ParserUtils::get_name_from_dict_entries(&child.node.ui_node) {
                Some(name) => str_eq(name.as_str(), "rightAlignedIconContainer"),
                None => false,
            };
            if name_matches {
                let inner = DisplayRegionUtils::list_descendants_with_display_region(
                    &child.node.child_with_region,
                );
                let ghost inner_views = spec_region_descendants(
                    view_of_region_node(list@[i as int].node).child_with_region,
                );
                let m = inner.len();
                let ghost out_so_far = view_of_strings(out@);
                proof {
                    assert(view_of_region_children(inner@) == inner_views);
                    assert(inner_views.subrange(0, 0) =~= Seq::<RegionNodeView>::empty());
                    assert(spec_hints_of(inner_views.subrange(0, 0)) =~= Seq::<Seq<char>>::empty());
                }
                let mut j: usize = 0;
                while j < m
                    invariant
                        m == inner@.len(),
                        view_of_region_children(inner@) == inner_views,
                        inner_views.len() == m,
                        0 <= j <= m,
                        view_of_strings(out@) == out_so_far + spec_hints_of(
                            inner_views.subrange(0, j as int),
                        ),
                    decreases m - j,
                {
                    proof {
                        assert(inner_views.subrange(0, j + 1).drop_last()
                            =~= inner_views.subrange(0, j as int));
                        assert(inner_views.subrange(0, j + 1).last() == view_of_region_node(
                            inner@[j as int].node,
                        ));
                    }
                    let inner_child = &inner[j];
                    match ParserUtils::get_hint_text_from_dict_entries(
                        &inner_child.node.ui_node,
                    ) {
                        Some(hint) => {
                            if hint.as_str().unicode_len() > 0 {
                                let ghost before = view_of_strings(out@);
                                out.push(hint);
                                proof {
                                    assert(view_of_strings(out@) =~= before.push(out@.last()@));
                                }
                            }
                        },
                        None => {},
                    }
                    proof {
                        assert(view_of_strings(out@) =~= out_so_far + spec_hints_of(
                            inner_views.subrange(0, j + 1),
                        ));
                    }
                    j = j + 1;
                }
                proof {
                    assert(inner_views.subrange(0, m as int) =~= inner_views);
                    assert(view_of_strings(out@) =~= spec_right_hints(
                        descendants.subrange(0, i + 1),
                    ));
                }
            }
            i = i + 1;
        }
        proof {
            assert(descendants.subrange(0, n as int) =~= descendants);
        }
        out
    }

    /// The row's display texts in ascending absolute-x order (a stable
    /// sort).
    pub fn extract_text_left_to_right(
        overview_window_entry_node: &UITreeNodeWithDisplayRegion,
    ) -> (r: Vec<String>)
        ensures
            view_of_strings(r@) == spec_texts_of(
                spec_sort_by_x(
                    spec_display_texts_of(
                        spec_region_descendants(
                            view_of_region_children(
                                overview_window_entry_node.child_with_region@,
                            ),
                        ),
                    ),
                ),
            ),
    {
        let all_text_with_regions = ParserUtils::get_all_contained_display_texts_with_region(
            overview_window_entry_node,
        );
        let ghost texts = spec_text_node_views(all_text_with_regions@);
        let mut sorted: Vec<(String, UITreeNodeWithDisplayRegion)> = Vec::new();
        let n = all_text_with_regions.len();
        proof {
            assert(texts.subrange(0, 0) =~= Seq::<(Seq<char>, RegionNodeView)>::empty());
            assert(spec_text_node_views(sorted@) =~= spec_sort_by_x(texts.subrange(0, 0)));
        }
        let mut i: usize = 0;
        while i < n
            invariant
                n == all_text_with_regions@.len(),
                texts == spec_text_node_views(all_text_with_regions@),
                texts.len() == n,
                0 <= i <= n,
                spec_text_node_views(sorted@) == spec_sort_by_x(texts.subrange(0, i as int)),
            decreases n - i,
        {
            proof {
                assert(texts.subrange(0, i + 1).drop_last() =~= texts.subrange(0, i as int));
                assert(texts.subrange(0, i + 1).last() == texts[i as int]);
            }
            let pair = &all_text_with_regions[i];
            let key = pair.1.total_display_region.x;
            let ghost sorted_before = spec_text_node_views(sorted@);
            let m = sorted.len();
            let mut idx: usize = 0;
            while idx < m && sorted[idx].1.total_display_region.x <= key
                invariant
                    m == sorted@.len(),
                    sorted_before == spec_text_node_views(sorted@),
                    sorted_before.len() == m,
                    0 <= idx <= m,
                    forall|k: int|
                        0 <= k < idx ==> (#[trigger] sorted_before[k]).1.total_display_region.x
                            as int <= key as int,
                decreases m - idx,
            {
                idx = idx + 1;
            }
            let item = (pair.0.clone(), clone_region_node(&pair.1));
            sorted.insert(idx, item);
            proof {
                assert(spec_text_node_views(sorted@) =~= sorted_before.insert(
                    idx as int,
                    texts[i as int],
                ));
                lemma_sorted_insert_at(sorted_before, texts[i as int], idx as int);
            }
            i = i + 1;
        }
        proof {
            assert(texts.subrange(0, n as int) =~= texts);
        }
        let mut out: Vec<String> = Vec::new();
        let count = sorted.len();
        proof {
            assert(view_of_strings(out@) =~= spec_texts_of(
                spec_text_node_views(sorted@),
            ).subrange(0, 0));
        }
        let mut j: usize = 0;
        while j < count
            invariant
                count == sorted@.len(),
                0 <= j <= count,
                view_of_strings(out@) == spec_texts_of(spec_text_node_views(sorted@)).subrange(
                    0,
                    j as int,
                ),
            decreases count - j,
        {
            let ghost before = view_of_strings(out@);
            out.push(sorted[j].0.clone());
            proof {
                let tv = spec_texts_of(spec_text_node_views(sorted@));
                assert(view_of_strings(out@) =~= before.push(sorted@[j as int].0@));
                assert(tv[j as int] == sorted@[j as int].0@);
                assert(tv.subrange(0, j + 1) =~= tv.subrange(0, j as int).push(tv[j as int]));
            }
            j = j + 1;
        }
        proof {
            assert(spec_texts_of(spec_text_node_views(sorted@)).subrange(
                0,
                count as int,
            ) =~= spec_texts_of(spec_text_node_views(sorted@)));
        }
        out
    }

    /// Whether some hint contains the text, both lowercased.
    pub fn right_aligned_icons_hints_contains_text_ignoring_case(
        hints: &Vec<String>,
        text_to_search: &str,
    ) -> (r: bool)
        ensures
            r == spec_hints_contain(view_of_strings(hints@), text_to_search@),
    {
        hints_contain_ignoring_case(hints, text_to_search)
    }
}

/// Inserting at the first index whose key exceeds the new key realizes the
/// sorted insertion.
proof fn lemma_sorted_insert_at(
    s: Seq<(Seq<char>, RegionNodeView)>,
    p: (Seq<char>, RegionNodeView),
    idx: int,
)
    requires
        0 <= idx <= s.len(),
        forall|k: int|
            0 <= k < idx ==> (#[trigger] s[k]).1.total_display_region.x as int
                <= p.1.total_display_region.x as int,
        idx < s.len() ==> s[idx].1.total_display_region.x > p.1.total_display_region.x,
    ensures
        spec_sorted_insert(s, p) == s.insert(idx, p),
    decreases idx,
{
    if s.len() == 0 {
        assert(spec_sorted_insert(s, p) =~= s.insert(0, p));
    } else if idx == 0 {
        assert(spec_sorted_insert(s, p) =~= s.insert(0, p));
    } else {
        lemma_sorted_insert_at(s.drop_first(), p, idx - 1);
        assert(s.drop_first().insert(idx - 1, p) =~= s.insert(idx, p).drop_first());
        assert(spec_sorted_insert(s, p) =~= seq![s[0]] + s.drop_first().insert(idx - 1, p));
        assert(spec_sorted_insert(s, p) =~= s.insert(idx, p));
    }
}

/// What every parsed overview panel satisfies, field by field.
pub open spec fn spec_overview_fields_ok(
    r: OverviewWindow,
    node: RegionNodeView,
    labels: LabelsView,
) -> bool {
    let descendants = spec_region_descendants(node.child_with_region);
    &&& view_of_region_node(r.ui_node) == node
    &&& spec_text_node_views(r.entries_headers@) == spec_overview_headers(node)
    &&& (match spec_find_type_contains(descendants, "basicdynamicscroll"@) {
        Some(scroll) => r.scroll_controls matches Some(controls) && view_of_region_node(
            controls.ui_node,
        ) == scroll,
        None => r.scroll_controls is None,
    })
    &&& r.entries@.len() == spec_scroll_entries(descendants).len()
    &&& forall|i: int|
        0 <= i < r.entries@.len() ==> spec_entry_fields_ok(
            #[trigger] r.entries@[i],
            spec_overview_headers(node),
            spec_scroll_entries(descendants)[i],
            labels,
        )
}

/// The header texts of an overview panel: the display texts below the first
/// descendant whose lowercased type contains `headers`, or none.
pub open spec fn spec_overview_headers(node: RegionNodeView) -> Seq<(Seq<char>, RegionNodeView)> {
    let descendants = spec_region_descendants(node.child_with_region);
    match spec_find_type_contains(descendants, "headers"@) {
        Some(container) => spec_display_texts_of(
            spec_region_descendants(container.child_with_region),
        ),
        None => Seq::empty(),
    }
}

/// The `OverviewScrollEntry` descendants, in order.
pub open spec fn spec_scroll_entries(s: Seq<RegionNodeView>) -> Seq<RegionNodeView>
    decreases s.len(),
{
    if s.len() == 0 {
        Seq::empty()
    } else {
        let rest = spec_scroll_entries(s.drop_last());
        if s.last().ui_node.object_type_name == "OverviewScrollEntry"@ {
            rest.push(s.last())
        } else {
            rest
        }
    }
}

/// What every parsed overview row satisfies, field by field.
pub open spec fn spec_entry_fields_ok(
    r: OverviewWindowEntry,
    headers: Seq<(Seq<char>, RegionNodeView)>,
    node: RegionNodeView,
    labels: LabelsView,
) -> bool {
    let descendants = spec_region_descendants(node.child_with_region);
    let texts = spec_display_texts_of(descendants);
    let cells = if headers.len() == 0 {
        Seq::<(Seq<char>, Seq<char>)>::empty()
    } else {
        spec_list_view_cells(headers, texts, headers[0].1.total_display_region.x as int)
    };
    let icon = spec_find_type_ignore_case(descendants, "spaceObjectIcon"@);
    &&& view_of_region_node(r.ui_node) == node
    &&& view_of_strings(r.texts_left_to_right@) == spec_texts_of(spec_sort_by_x(texts))
    &&& spec_text_pair_views(r.cells_texts@) == cells
    &&& (match spec_cells_lookup(cells, labels.distance) {
        Some(text) => r.object_distance matches Some(s) && s@ == text,
        None => r.object_distance is None,
    })
    &&& r.object_distance_in_meters as int == spec_distance_in_meters(
        spec_cells_lookup(cells, labels.distance),
    )
    &&& (match spec_cells_lookup(cells, labels.name) {
        Some(text) => r.object_name matches Some(s) && s@ == text,
        None => r.object_name is None,
    })
    &&& (match spec_cells_lookup(cells, labels.object_type) {
        Some(text) => r.object_type matches Some(s) && s@ == text,
        None => r.object_type is None,
    })
    &&& (match spec_cells_lookup(cells, labels.alliance) {
        Some(text) => r.object_alliance matches Some(s) && s@ == text,
        None => r.object_alliance is None,
    })
    &&& r.bg_color_fills_percent@ == spec_bg_colors(descendants)
    &&& view_of_strings(r.right_aligned_icons_hints@) == spec_right_hints(descendants)
    &&& (match r.opacity_percent {
        Some(v) => crate::parser_utils::spec_opacity_percent(node.ui_node) == Some(v as int),
        None => crate::parser_utils::spec_opacity_percent(node.ui_node) is None,
    })
    &&& (match icon {
        Some(icon_node) => {
            let icon_descendants = spec_region_descendants(icon_node.child_with_region);
            &&& (match spec_find_by_name(icon_descendants, "iconSprite"@) {
                Some(sprite) => r.icon_sprite_color_percent == spec_color_property(
                    sprite.ui_node,
                ),
                None => r.icon_sprite_color_percent is None,
            })
            &&& r.is_player == (spec_find_by_type(icon_descendants, "FlagIconWithState"@)
                is Some)
            &&& view_of_strings(r.names_under_space_object_icon@) == spec_distinct_names(
                spec_descendants(icon_node.ui_node),
            )
        },
        None => {
            &&& r.icon_sprite_color_percent is None
            &&& !r.is_player
            &&& r.names_under_space_object_icon@.len() == 0
        },
    })
    &&& r.common_indications.targeting == view_of_strings(
        r.names_under_space_object_icon@,
    ).contains("targeting"@)
    &&& r.common_indications.targeted_by_me == view_of_strings(
        r.names_under_space_object_icon@,
    ).contains("targetedByMeIndicator"@)
    &&& r.common_indications.is_jamming_me == spec_hints_contain(
        spec_right_hints(descendants),
        labels.is_jamming_me,
    )
    &&& r.common_indications.is_warp_disrupting_me == spec_hints_contain(
        spec_right_hints(descendants),
        labels.is_warp_disrupting_me,
    )
}

/// The first node named `name` among the list.
pub open spec fn spec_find_by_name(s: Seq<RegionNodeView>, name: Seq<char>) -> Option<
    RegionNodeView,
>
    decreases s.len(),
{
    if s.len() == 0 {
        None
    } else if spec_string_property(s[0].ui_node, "_name"@) == Some(name) {
        Some(s[0])
    } else {
        spec_find_by_name(s.drop_first(), name)
    }
}

/// The first child whose lowercased type contains the lowercased needle, as
/// a copy.
fn find_type_contains(
    children: &Vec<crate::ui_tree_node::ChildWithRegion>,
    needle: &str,
) -> (r: Option<UITreeNodeWithDisplayRegion>)
    ensures
        match spec_find_type_contains(view_of_region_children(children@), needle@) {
            Some(node) => r matches Some(out) && view_of_region_node(out) == node,
            None => r is None,
        },
{
    let ghost views = view_of_region_children(children@);
    let needle_lower = ascii_lowercase(needle);
    let n = children.len();
    let mut i: usize = 0;
    while i < n
        invariant
            n == children@.len(),
            views == view_of_region_children(children@),
            views.len() == n,
            needle_lower@ == spec_lower(needle@),
            0 <= i <= n,
            forall|k: int|
                0 <= k < i ==> !spec_str_contains(
                    spec_lower((#[trigger] views[k]).ui_node.object_type_name),
                    spec_lower(needle@),
                ),
        decreases n - i,
    {
        let child = &children[i];
        let lowered = ascii_lowercase(child.node.ui_node.object_type_name.as_str());
        if str_contains(lowered.as_str(), needle_lower.as_str()) {
            proof {
                lemma_find_type_contains_first(views, needle@, i as int);
            }
            return Some(clone_region_node(&child.node));
        }
        i = i + 1;
    }
    proof {
        lemma_find_type_contains_none(views, needle@);
    }
    None
}

proof fn lemma_find_type_contains_first(s: Seq<RegionNodeView>, needle: Seq<char>, i: int)
    requires
        0 <= i < s.len(),
        spec_str_contains(spec_lower(s[i].ui_node.object_type_name), spec_lower(needle)),
        forall|k: int|
            0 <= k < i ==> !spec_str_contains(
                spec_lower((#[trigger] s[k]).ui_node.object_type_name),
                spec_lower(needle),
            ),
    ensures
        spec_find_type_contains(s, needle) == Some(s[i]),
    decreases i,
{
    if i > 0 {
        lemma_find_type_contains_first(s.drop_first(), needle, i - 1);
    }
}

proof fn lemma_find_type_contains_none(s: Seq<RegionNodeView>, needle: Seq<char>)
    requires
        forall|k: int|
            0 <= k < s.len() ==> !spec_str_contains(
                spec_lower((#[trigger] s[k]).ui_node.object_type_name),
                spec_lower(needle),
            ),
    ensures
        spec_find_type_contains(s, needle) is None,
    decreases s.len(),
{
    if s.len() > 0 {
        assert forall|k: int| 0 <= k < s.drop_first().len() implies !spec_str_contains(
            spec_lower((#[trigger] s.drop_first()[k]).ui_node.object_type_name),
            spec_lower(needle),
        ) by {
            assert(s.drop_first()[k] == s[k + 1]);
        }
        lemma_find_type_contains_none(s.drop_first(), needle);
    }
}

/// The first child whose lowercased type equals the lowercased needle, as a
/// copy.
fn find_type_ignore_case(
    children: &Vec<crate::ui_tree_node::ChildWithRegion>,
    needle: &str,
) -> (r: Option<UITreeNodeWithDisplayRegion>)
    ensures
        match spec_find_type_ignore_case(view_of_region_children(children@), needle@) {
            Some(node) => r matches Some(out) && view_of_region_node(out) == node,
            None => r is None,
        },
{
    let ghost views = view_of_region_children(children@);
    let needle_lower = ascii_lowercase(needle);
    let n = children.len();
    let mut i: usize = 0;
    while i < n
        invariant
            n == children@.len(),
            views == view_of_region_children(children@),
            views.len() == n,
            needle_lower@ == spec_lower(needle@),
            0 <= i <= n,
            forall|k: int|
                0 <= k < i ==> spec_lower((#[trigger] views[k]).ui_node.object_type_name)
                    != spec_lower(needle@),
        decreases n - i,
    {
        let child = &children[i];
        let lowered = ascii_lowercase(child.node.ui_node.object_type_name.as_str());
        if str_eq(lowered.as_str(), needle_lower.as_str()) {
            proof {
                lemma_find_type_ignore_case_first(views, needle@, i as int);
            }
            return Some(clone_region_node(&child.node));
        }
        i = i + 1;
    }
    proof {
        lemma_find_type_ignore_case_none(views, needle@);
    }
    None
}

proof fn lemma_find_type_ignore_case_first(s: Seq<RegionNodeView>, needle: Seq<char>, i: int)
    requires
        0 <= i < s.len(),
        spec_lower(s[i].ui_node.object_type_name) == spec_lower(needle),
        forall|k: int|
            0 <= k < i ==> spec_lower((#[trigger] s[k]).ui_node.object_type_name) != spec_lower(
                needle,
            ),
    ensures
        spec_find_type_ignore_case(s, needle) == Some(s[i]),
    decreases i,
{
    if i > 0 {
        lemma_find_type_ignore_case_first(s.drop_first(), needle, i - 1);
    }
}

proof fn lemma_find_type_ignore_case_none(s: Seq<RegionNodeView>, needle: Seq<char>)
    requires
        forall|k: int|
            0 <= k < s.len() ==> spec_lower((#[trigger] s[k]).ui_node.object_type_name)
                != spec_lower(needle),
    ensures
        spec_find_type_ignore_case(s, needle) is None,
    decreases s.len(),
{
    if s.len() > 0 {
        assert forall|k: int| 0 <= k < s.drop_first().len() implies spec_lower(
            (#[trigger] s.drop_first()[k]).ui_node.object_type_name,
        ) != spec_lower(needle) by {
            assert(s.drop_first()[k] == s[k + 1]);
        }
        lemma_find_type_ignore_case_none(s.drop_first(), needle);
    }
}

/// The first child named `name`, as a copy.
pub fn find_first_by_name_public(
    children: &Vec<crate::ui_tree_node::ChildWithRegion>,
    name: &str,
) -> (r: Option<UITreeNodeWithDisplayRegion>)
    ensures
        match spec_find_by_name(view_of_region_children(children@), name@) {
            Some(node) => r matches Some(out) && view_of_region_node(out) == node,
            None => r is None,
        },
{
    let ghost views = view_of_region_children(children@);
    let n = children.len();
    let mut i: usize = 0;
    while i < n
        invariant
            n == children@.len(),
            views == view_of_region_children(children@),
            views.len() == n,
            0 <= i <= n,
            forall|k: int|
                0 <= k < i ==> spec_string_property((#[trigger] views[k]).ui_node, "_name"@)
                    != Some(name@),
        decreases n - i,
    {
        let child = &children[i];
        let matches_name = match ParserUtils::get_name_from_dict_entries(&child.node.ui_node) {
            Some(found) => str_eq(found.as_str(), name),
            None => false,
        };
        if matches_name {
            proof {
                lemma_find_by_name_first(views, name@, i as int);
            }
            return Some(clone_region_node(&child.node));
        }
        i = i + 1;
    }
    proof {
        lemma_find_by_name_none(views, name@);
    }
    None
}

proof fn lemma_find_by_name_first(s: Seq<RegionNodeView>, name: Seq<char>, i: int)
    requires
        0 <= i < s.len(),
        spec_string_property(s[i].ui_node, "_name"@) == Some(name),
        forall|k: int|
            0 <= k < i ==> spec_string_property((#[trigger] s[k]).ui_node, "_name"@) != Some(name),
    ensures
        spec_find_by_name(s, name) == Some(s[i]),
    decreases i,
{
    if i > 0 {
        lemma_find_by_name_first(s.drop_first(), name, i - 1);
    }
}

proof fn lemma_find_by_name_none(s: Seq<RegionNodeView>, name: Seq<char>)
    requires
        forall|k: int|
            0 <= k < s.len() ==> spec_string_property((#[trigger] s[k]).ui_node, "_name"@)
                != Some(name),
    ensures
        spec_find_by_name(s, name) is None,
    decreases s.len(),
{
    if s.len() > 0 {
        assert forall|k: int| 0 <= k < s.drop_first().len() implies spec_string_property(
            (#[trigger] s.drop_first()[k]).ui_node,
            "_name"@,
        ) != Some(name) by {
            assert(s.drop_first()[k] == s[k + 1]);
        }
        lemma_find_by_name_none(s.drop_first(), name);
    }
}

/// The value of the last cell named `key`, as a copy.
fn cells_lookup(cells: &Vec<(String, String)>, key: &str) -> (r: Option<String>)
    ensures
        match spec_cells_lookup(spec_text_pair_views(cells@), key@) {
            Some(text) => r matches Some(s) && s@ == text,
            None => r is None,
        },
{
    let ghost views = spec_text_pair_views(cells@);
    let n = cells.len();
    proof {
        assert(views.subrange(0, n as int) =~= views);
    }
    let mut i: usize = n;
    while i > 0
        invariant
            n == cells@.len(),
            views == spec_text_pair_views(cells@),
            views.len() == n,
            0 <= i <= n,
            spec_cells_lookup(views, key@) == spec_cells_lookup(
                views.subrange(0, i as int),
                key@,
            ),
        decreases i,
    {
        proof {
            assert(views.subrange(0, i as int).drop_last() =~= views.subrange(0, i - 1));
            assert(views.subrange(0, i as int).last() == views[i - 1]);
        }
        let pair = &cells[i - 1];
        if str_eq(pair.0.as_str(), key) {
            return Some(pair.1.clone());
        }
        i = i - 1;
    }
    proof {
        assert(views.subrange(0, 0) =~= Seq::<(Seq<char>, Seq<char>)>::empty());
    }
    None
}

/// Whether some string in the list equals the needle.
fn strings_contain(strings: &Vec<String>, needle: &str) -> (r: bool)
    ensures
        r == view_of_strings(strings@).contains(needle@),
{
    let n = strings.len();
    let mut i: usize = 0;
    while i < n
        invariant
            n == strings@.len(),
            0 <= i <= n,
            forall|k: int| 0 <= k < i ==> view_of_strings(strings@)[k] != needle@,
        decreases n - i,
    {
        if str_eq(strings[i].as_str(), needle) {
            proof {
                assert(view_of_strings(strings@)[i as int] == needle@);
            }
            return true;
        }
        i = i + 1;
    }
    proof {
        if view_of_strings(strings@).contains(needle@) {
            let k = choose|k: int|
                0 <= k < view_of_strings(strings@).len() && view_of_strings(strings@)[k]
                    == needle@;
        }
    }
    false
}

/// Whether some hint contains the needle, both lowercased.
fn hints_contain_ignoring_case(hints: &Vec<String>, needle: &str) -> (r: bool)
    ensures
        r == spec_hints_contain(view_of_strings(hints@), needle@),
{
    let needle_lower = ascii_lowercase(needle);
    let n = hints.len();
    let mut i: usize = 0;
    while i < n
        invariant
            n == hints@.len(),
            needle_lower@ == spec_lower(needle@),
            0 <= i <= n,
            forall|k: int|
                0 <= k < i ==> !spec_str_contains(
                    spec_lower(#[trigger] view_of_strings(hints@)[k]),
                    spec_lower(needle@),
                ),
        decreases n - i,
    {
        let lowered = ascii_lowercase(hints[i].as_str());
        if str_contains(lowered.as_str(), needle_lower.as_str()) {
            proof {
                assert(spec_str_contains(
                    spec_lower(view_of_strings(hints@)[i as int]),
                    spec_lower(needle@),
                ));
            }
            return true;
        }
        i = i + 1;
    }
    proof {
        if spec_hints_contain(view_of_strings(hints@), needle@) {
            let k = choose|k: int|
                0 <= k < view_of_strings(hints@).len() && spec_str_contains(
                    spec_lower(#[trigger] view_of_strings(hints@)[k]),
                    spec_lower(needle@),
                );
        }
    }
    false
}

/// The distinct `_name` properties below the raw node, first occurrences
/// first.
fn distinct_names_under(node: &UiTreeNode) -> (r: Vec<String>)
    ensures
        view_of_strings(r@) == spec_distinct_names(spec_descendants(view_of_node(*node))),
{
    let descendants = UiTreeNode::list_descendants_in_ui_tree_node(node);
    let ghost views = crate::ui_tree_node::view_of_nodes(descendants@);
    let mut out: Vec<String> = Vec::new();
    let n = descendants.len();
    proof {
        assert(views.subrange(0, 0) =~= Seq::<NodeView>::empty());
        assert(view_of_strings(out@) =~= Seq::<Seq<char>>::empty());
    }
    let mut i: usize = 0;
    while i < n
        invariant
            n == descendants@.len(),
            views == crate::ui_tree_node::view_of_nodes(descendants@),
            views.len() == n,
            0 <= i <= n,
            view_of_strings(out@) == spec_distinct_names(views.subrange(0, i as int)),
        decreases n - i,
    {
        proof {
            assert(views.subrange(0, i + 1).drop_last() =~= views.subrange(0, i as int));
            assert(views.subrange(0, i + 1).last() == view_of_node(descendants@[i as int]));
        }
        match ParserUtils::get_name_from_dict_entries(&descendants[i]) {
            Some(name) => {
                if !strings_contain(&out, name.as_str()) {
                    let ghost before = view_of_strings(out@);
                    out.push(name);
                    proof {
                        assert(view_of_strings(out@) =~= before.push(out@.last()@));
                    }
                }
            },
            None => {},
        }
        i = i + 1;
    }
    proof {
        assert(views.subrange(0, n as int) =~= views);
    }
    out
}

} // verus!
