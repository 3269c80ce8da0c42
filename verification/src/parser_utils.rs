//! Shared helpers of the panel parsers: property lookups, list-view cell
//! alignment, scroll-control discovery and distance parsing.

use vstd::prelude::*;
use crate::values::DecodedValue;
use crate::values::ValueView;
use crate::values::ColorComponents;
use crate::values::spec_entries_has_key;
use crate::values::spec_entries_lookup;
use crate::values::dict_entries_find;
use crate::values::str_eq;
use crate::ui_tree_node::UiTreeNode;
use crate::ui_tree_node::UITreeNodeWithDisplayRegion;
use crate::ui_tree_node::ChildWithRegion;
use crate::ui_tree_node::NodeView;
use crate::ui_tree_node::RegionNodeView;
use crate::ui_tree_node::ScrollControls;
use crate::ui_tree_node::view_of_node;
use crate::ui_tree_node::view_of_region_node;
use crate::ui_tree_node::view_of_region_children;
use crate::ui_tree_node::clone_region_node;
use crate::ui_tree_node::spec_display_text;
use crate::display_region_utils::DisplayRegionUtils;
use crate::display_region_utils::spec_region_descendants;
use crate::errors::ExtractError;
use crate::text::chars_of;
use crate::text::string_from_chars;
use crate::text::trim_chars;
use crate::text::tokenize;
use crate::text::join_spaces;
use crate::text::remove_char;
use crate::text::parse_i32_chars;
use crate::text::spec_trim;
use crate::text::spec_tokens;
use crate::text::spec_join_spaces;
use crate::text::spec_remove_char;
use crate::text::spec_is_int_string;
use crate::text::spec_int_string_value;

verus! {

/// The string stored under `property` on the node, if its decoded value is
/// a string.
pub open spec fn spec_string_property(n: NodeView, property: Seq<char>) -> Option<Seq<char>> {
    if spec_entries_has_key(n.dict_entries_of_interest, property) {
        match spec_entries_lookup(n.dict_entries_of_interest, property) {
            ValueView::Str(s) => Some(s),
            _ => None,
        }
    } else {
        None
    }
}

/// The color stored under `_color` on the node, if any.
pub open spec fn spec_color_property(n: NodeView) -> Option<ColorComponents> {
    if spec_entries_has_key(n.dict_entries_of_interest, "_color"@) {
        match spec_entries_lookup(n.dict_entries_of_interest, "_color"@) {
            ValueView::Color(c) => Some(c),
            _ => None,
        }
    } else {
        None
    }
}

/// Whether a header rectangle is aligned over a cell rectangle: the header
/// begins at most two columns right of the cell and ends at most two
/// columns short of it.
pub open spec fn spec_header_matches_cell(header: DisplayRegionView, cell: DisplayRegionView) -> bool {
    &&& header.x < cell.x + 3
    &&& header.x + header.width > cell.x + cell.width - 3
}

/// A rectangle read as mathematical integers.
pub struct DisplayRegionView {
    pub x: int,
    pub y: int,
    pub width: int,
    pub height: int,
}

/// A rectangle read as mathematical integers.
pub open spec fn spec_region_view(r: crate::display_region::DisplayRegion) -> DisplayRegionView {
    DisplayRegionView { x: r.x as int, y: r.y as int, width: r.width as int, height: r.height as int }
}

/// The non-empty display texts among the given region-annotated nodes, each
/// with its node, in order.
pub open spec fn spec_display_texts_of(s: Seq<RegionNodeView>) -> Seq<(Seq<char>, RegionNodeView)>
    decreases s.len(),
{
    if s.len() == 0 {
        Seq::empty()
    } else {
        let rest = spec_display_texts_of(s.drop_last());
        let text = spec_display_text(s.last().ui_node);
        if text.len() > 0 {
            rest.push((text, s.last()))
        } else {
            rest
        }
    }
}

/// The texts and nodes held by a vector of text-node pairs.
pub open spec fn spec_text_node_views(s: Seq<(String, UITreeNodeWithDisplayRegion)>) -> Seq<
    (Seq<char>, RegionNodeView),
> {
    Seq::new(s.len(), |i: int| (s[i].0@, view_of_region_node(s[i].1)))
}

/// The texts held by a vector of text pairs.
pub open spec fn spec_text_pair_views(s: Seq<(String, String)>) -> Seq<(Seq<char>, Seq<char>)> {
    Seq::new(s.len(), |i: int| (s[i].0@, s[i].1@))
}

/// The name of the first header aligned over the cell, if any.
pub open spec fn spec_find_matching_header(
    headers: Seq<(Seq<char>, RegionNodeView)>,
    cell: RegionNodeView,
) -> Option<Seq<char>>
    decreases headers.len(),
{
    if headers.len() == 0 {
        None
    } else if spec_header_matches_cell(
        spec_region_view(headers[0].1.total_display_region),
        spec_region_view(cell.total_display_region),
    ) {
        Some(headers[0].0)
    } else {
        spec_find_matching_header(headers.drop_first(), cell)
    }
}

/// The index of the first occurrence of `<t>`, or the text's length when it
/// does not occur.
pub open spec fn spec_first_tag(s: Seq<char>) -> int
    decreases s.len(),
{
    if s.len() < 3 {
        s.len() as int
    } else if s.subrange(0, 3) == "<t>"@ {
        0
    } else {
        1 + spec_first_tag(s.drop_first())
    }
}

/// The text split on `<t>` separators, each piece trimmed, empty pieces
/// dropped.
pub open spec fn spec_split_tag_trimmed(s: Seq<char>) -> Seq<Seq<char>>
    decreases s.len(),
{
    let i = spec_first_tag(s);
    if 0 <= i && i + 3 <= s.len() {
        spec_keep_nonempty(spec_trim(s.subrange(0, i))) + spec_split_tag_trimmed(
            s.subrange(i + 3, s.len() as int),
        )
    } else {
        spec_keep_nonempty(spec_trim(s))
    }
}

/// A singleton of the text when it is non-empty, else nothing.
pub open spec fn spec_keep_nonempty(s: Seq<char>) -> Seq<Seq<char>> {
    if s.len() > 0 {
        seq![s]
    } else {
        Seq::empty()
    }
}

/// The split pieces paired positionally with the header names, as far as
/// both lists go.
pub open spec fn spec_pair_splits(
    headers: Seq<(Seq<char>, RegionNodeView)>,
    splits: Seq<Seq<char>>,
) -> Seq<(Seq<char>, Seq<char>)> {
    Seq::new(
        if headers.len() <= splits.len() {
            headers.len()
        } else {
            splits.len()
        },
        |i: int| (headers[i].0, splits[i]),
    )
}

/// The list-view cells of the given texts against the given headers: a text
/// under an aligned header names that header's column; a text at the
/// leftmost header's column with no aligned header is dropped; any other
/// text is split on `<t>` and paired positionally with the headers.
pub open spec fn spec_list_view_cells(
    headers: Seq<(Seq<char>, RegionNodeView)>,
    texts: Seq<(Seq<char>, RegionNodeView)>,
    leftmost_x: int,
) -> Seq<(Seq<char>, Seq<char>)>
    decreases texts.len(),
{
    if texts.len() == 0 {
        Seq::empty()
    } else {
        let rest = spec_list_view_cells(headers, texts.drop_last(), leftmost_x);
        let (text, cell) = texts.last();
        match spec_find_matching_header(headers, cell) {
            Some(name) => rest.push((name, text)),
            None => {
                let distance = cell.total_display_region.x - leftmost_x;
                if -4 < distance < 4 {
                    rest
                } else {
                    rest + spec_pair_splits(headers, spec_split_tag_trimmed(text))
                }
            },
        }
    }
}

/// The value of the last cell named `key`, if any: a later cell for the
/// same column wins.
pub open spec fn spec_cells_lookup(cells: Seq<(Seq<char>, Seq<char>)>, key: Seq<char>) -> Option<
    Seq<char>,
>
    decreases cells.len(),
{
    if cells.len() == 0 {
        None
    } else if cells.last().0 == key {
        Some(cells.last().1)
    } else {
        spec_cells_lookup(cells.drop_last(), key)
    }
}

/// Meters per unit for a distance unit word.
pub open spec fn spec_unit_in_meters(unit: Seq<char>) -> Option<int> {
    if unit == "m"@ {
        Some(1)
    } else if unit == "km"@ {
        Some(1000)
    } else {
        None
    }
}

/// The value of a distance text: the last whitespace token names the unit,
/// the tokens before it (joined, with dot separators removed) give the
/// number; `-1` when anything is missing, malformed, too far away, or out
/// of the 32-bit range after scaling.
pub open spec fn spec_distance_in_meters(text: Option<Seq<char>>) -> int {
    match text {
        None => -1,
        Some(s) => {
            let toks = spec_tokens(spec_trim(s));
            if toks.len() < 2 {
                -1
            } else {
                let unit = toks.last();
                let number_text = spec_remove_char(
                    spec_join_spaces(toks.drop_last()),
                    '.',
                );
                match spec_unit_in_meters(unit) {
                    None => -1,
                    Some(meters) => {
                        if spec_is_int_string(number_text) && i32::MIN <= spec_int_string_value(
                            number_text,
                        ) <= i32::MAX {
                            let product = spec_int_string_value(number_text) * meters;
                            if i32::MIN <= product <= i32::MAX {
                                product
                            } else {
                                -1
                            }
                        } else {
                            -1
                        }
                    },
                }
            }
        },
    }
}

/// Shared helpers of the panel parsers.
pub struct ParserUtils;

impl ParserUtils {
    /// The string stored under `property_name`, if its decoded value is a
    /// string.
    pub fn get_string_property_from_dict_entries(
        ui_tree_node: &UiTreeNode,
        property_name: &str,
    ) -> (r: Option<String>)
        ensures
            match spec_string_property(view_of_node(*ui_tree_node), property_name@) {
                Some(s) => r matches Some(out) && out@ == s,
                None => r is None,
            },
    {
        match dict_entries_find(&ui_tree_node.dict_entries_of_interest, property_name) {
            Some(value) => match value {
                DecodedValue::Str(s) => Some(s.clone()),
                _ => None,
            },
            None => None,
        }
    }

    /// The node's `_name` string property, if any.
    pub fn get_name_from_dict_entries(ui_tree_node: &UiTreeNode) -> (r: Option<String>)
        ensures
            match spec_string_property(view_of_node(*ui_tree_node), "_name"@) {
                Some(s) => r matches Some(out) && out@ == s,
                None => r is None,
            },
    {
        ParserUtils::get_string_property_from_dict_entries(ui_tree_node, "_name")
    }

    /// The node's `_hint` string property, if any.
    pub fn get_hint_text_from_dict_entries(ui_tree_node: &UiTreeNode) -> (r: Option<String>)
        ensures
            match spec_string_property(view_of_node(*ui_tree_node), "_hint"@) {
                Some(s) => r matches Some(out) && out@ == s,
                None => r is None,
            },
    {
        ParserUtils::get_string_property_from_dict_entries(ui_tree_node, "_hint")
    }

    /// The node's `_color` value, if it decoded as a color.
    pub fn get_color_percentage_from_dict_entries(ui_tree_node: &UiTreeNode) -> (r: Option<
        ColorComponents,
    >)
        ensures
            r == spec_color_property(view_of_node(*ui_tree_node)),
    {
        match dict_entries_find(&ui_tree_node.dict_entries_of_interest, "_color") {
            Some(value) => match value {
                DecodedValue::Color(c) => Some(*c),
                _ => None,
            },
            None => None,
        }
    }

    /// Meters per unit for a distance unit word.
    pub fn parse_distance_unit_in_meters(unit_text: &str) -> (r: Option<i32>)
        ensures
            match spec_unit_in_meters(unit_text@) {
                Some(v) => r matches Some(out) && out as int == v,
                None => r is None,
            },
    {
        if str_eq(unit_text, "m") {
            Some(1)
        } else if str_eq(unit_text, "km") {
            Some(1000)
        } else {
            None
        }
    }

    /// Parses a decimal integer after removing every dot separator.
    pub fn parse_number_truncating_after_optional_decimal_separator(number_text: &str) -> (r:
        Result<i32, ExtractError>)
        ensures
            ({
                let digits = spec_remove_char(number_text@, '.');
                if spec_is_int_string(digits) && i32::MIN <= spec_int_string_value(digits)
                    <= i32::MAX {
                    r matches Ok(v) && v as int == spec_int_string_value(digits)
                } else {
                    r == Err::<i32, ExtractError>(ExtractError::DecodeFailure)
                }
            }),
    {
        let chars = chars_of(number_text);
        let cleaned = remove_char(&chars, '.');
        match parse_i32_chars(&cleaned) {
            Some(v) => Ok(v),
            None => Err(ExtractError::DecodeFailure),
        }
    }

    /// See [`spec_distance_in_meters`].
    pub fn parse_overview_entry_distance_in_meters_from_text(
        distance_display_text_before_trim: &Option<String>,
    ) -> (r: i32)
        ensures
            r as int == spec_distance_in_meters(
                match distance_display_text_before_trim {
                    Some(s) => Some(s@),
                    None => None,
                },
            ),
    {
        let text = match distance_display_text_before_trim {
            Some(s) => s,
            None => {
                return -1;
            },
        };
        let chars = chars_of(text.as_str());
        let trimmed = trim_chars(&chars);
        let mut parts = tokenize(&trimmed);
        if parts.len() < 2 {
            return -1;
        }
        let unit_chars = match parts.pop() {
            Some(u) => u,
            None => {
                return -1;
            },
        };
        proof {
            assert(crate::text::spec_token_views(parts@) =~= spec_tokens(
                spec_trim(text@),
            ).drop_last());
            assert(unit_chars@ == spec_tokens(spec_trim(text@)).last());
        }
        let unit_string = string_from_chars(&unit_chars);
        let unit_in_meters = match ParserUtils::parse_distance_unit_in_meters(
            unit_string.as_str(),
        ) {
            Some(m) => m,
            None => {
                return -1;
            },
        };
        let number_joined = join_spaces(&parts);
        let number_cleaned = remove_char(&number_joined, '.');
        let number = match parse_i32_chars(&number_cleaned) {
            Some(v) => v,
            None => {
                return -1;
            },
        };
        proof {
            assert(unit_in_meters == 1 || unit_in_meters == 1000);
        }
        let product = (number as i64) * (unit_in_meters as i64);
        if i32::MIN as i64 <= product && product <= i32::MAX as i64 {
            product as i32
        } else {
            -1
        }
    }

    /// Whether a header rectangle is aligned over a cell rectangle.
    pub fn header_region_matches_cell_region(
        header_region: &crate::display_region::DisplayRegion,
        cell_region: &crate::display_region::DisplayRegion,
    ) -> (r: bool)
        ensures
            r == spec_header_matches_cell(
                spec_region_view(*header_region),
                spec_region_view(*cell_region),
            ),
    {
        let header_x = header_region.x as i64;
        let header_width = header_region.width as i64;
        let cell_x = cell_region.x as i64;
        let cell_width = cell_region.width as i64;
        header_x < cell_x + 3 && header_x + header_width > cell_x + cell_width - 3
    }

    /// The non-empty display texts among the node's region-bearing
    /// descendants, each with a copy of its node, in depth-first order.
    pub fn get_all_contained_display_texts_with_region(
        ui_node: &UITreeNodeWithDisplayRegion,
    ) -> (r: Vec<(String, UITreeNodeWithDisplayRegion)>)
        ensures
            spec_text_node_views(r@) == spec_display_texts_of(
                spec_region_descendants(
                    view_of_region_children(ui_node.child_with_region@),
                ),
            ),
    {
        let descendant_children = DisplayRegionUtils::list_descendants_with_display_region(
            &ui_node.child_with_region,
        );
        let ghost views = spec_region_descendants(
            view_of_region_children(ui_node.child_with_region@),
        );
        let mut result: Vec<(String, UITreeNodeWithDisplayRegion)> = Vec::new();
        let n = descendant_children.len();
        proof {
            assert(view_of_region_children(descendant_children@) == views);
            assert(views.subrange(0, 0) =~= Seq::<RegionNodeView>::empty());
            assert(spec_text_node_views(result@) =~= Seq::<(Seq<char>, RegionNodeView)>::empty());
        }
        let mut i: usize = 0;
        while i < n
            invariant
                n == descendant_children@.len(),
                view_of_region_children(descendant_children@) == views,
                views.len() == n,
                0 <= i <= n,
                spec_text_node_views(result@) == spec_display_texts_of(
                    views.subrange(0, i as int),
                ),
            decreases n - i,
        {
            proof {
                assert(views.subrange(0, i + 1).drop_last() =~= views.subrange(0, i as int));
                assert(views.subrange(0, i + 1).last() == view_of_region_node(
                    descendant_children@[i as int].node,
                ));
            }
            let descendant = &descendant_children[i];
            let display_text = UiTreeNode::get_display_text(&descendant.node.ui_node);
            if display_text.as_str().unicode_len() > 0 {
                result.push((display_text, clone_region_node(&descendant.node)));
                proof {
                    assert(spec_text_node_views(result@) =~= spec_display_texts_of(
                        views.subrange(0, i + 1),
                    ));
                }
            }
            i = i + 1;
        }
        proof {
            assert(views.subrange(0, n as int) =~= views);
        }
        result
    }

    /// The scroll node with its `ScrollHandle` descendant, when one exists.
    pub fn parse_scroll_controls(scroll_node: &UITreeNodeWithDisplayRegion) -> (r: ScrollControls)
        ensures
            view_of_region_node(r.ui_node) == view_of_region_node(*scroll_node),
            ({
                let descendants = spec_region_descendants(
                    view_of_region_children(scroll_node.child_with_region@),
                );
                match spec_find_by_type(descendants, "ScrollHandle"@) {
                    Some(handle) => r.scroll_handle matches Some(h) && view_of_region_node(h)
                        == handle,
                    None => r.scroll_handle is None,
                }
            }),
    {
        let descendants = DisplayRegionUtils::list_descendants_with_display_region(
            &scroll_node.child_with_region,
        );
        let handle = find_first_by_type(&descendants, "ScrollHandle");
        ScrollControls { ui_node: clone_region_node(scroll_node), scroll_handle: handle }
    }

    /// The list-view cells of the entry node against the headers; see
    /// [`spec_list_view_cells`]. With no headers there are no cells.
    pub fn parse_list_view_entry(
        entry_headers: &Vec<(String, UITreeNodeWithDisplayRegion)>,
        list_view_entry_node: &UITreeNodeWithDisplayRegion,
    ) -> (r: Vec<(String, String)>)
        ensures
            entry_headers@.len() == 0 ==> r@.len() == 0,
            entry_headers@.len() > 0 ==> spec_text_pair_views(r@) == spec_list_view_cells(
                spec_text_node_views(entry_headers@),
                spec_display_texts_of(
                    spec_region_descendants(
                        view_of_region_children(list_view_entry_node.child_with_region@),
                    ),
                ),
                spec_text_node_views(
                    entry_headers@,
                )[0].1.total_display_region.x as int,
            ),
    {
        if entry_headers.len() == 0 {
            return Vec::new();
        }
        let ghost headers = spec_text_node_views(entry_headers@);
        let leftmost_x = entry_headers[0].1.total_display_region.x;
        let all_texts_with_regions = ParserUtils::get_all_contained_display_texts_with_region(
            list_view_entry_node,
        );
        let ghost texts = spec_text_node_views(all_texts_with_regions@);
        let mut cells_texts: Vec<(String, String)> = Vec::new();
        let n = all_texts_with_regions.len();
        proof {
            assert(texts.subrange(0, 0) =~= Seq::<(Seq<char>, RegionNodeView)>::empty());
            assert(spec_text_pair_views(cells_texts@) =~= Seq::<(Seq<char>, Seq<char>)>::empty());
        }
        let mut i: usize = 0;
        while i < n
            invariant
                n == all_texts_with_regions@.len(),
                texts == spec_text_node_views(all_texts_with_regions@),
                texts.len() == n,
                headers == spec_text_node_views(entry_headers@),
                entry_headers@.len() > 0,
                leftmost_x as int == headers[0].1.total_display_region.x as int,
                0 <= i <= n,
                spec_text_pair_views(cells_texts@) == spec_list_view_cells(
                    headers,
                    texts.subrange(0, i as int),
                    leftmost_x as int,
                ),
            decreases n - i,
        {
            proof {
                assert(texts.subrange(0, i + 1).drop_last() =~= texts.subrange(0, i as int));
                assert(texts.subrange(0, i + 1).last() == texts[i as int]);
            }
            let pair = &all_texts_with_regions[i];
            let cell_text = &pair.0;
            let cell = &pair.1;
            match find_matching_header(entry_headers, cell) {
                Some(header_name) => {
                    cells_texts.push((header_name, cell_text.clone()));
                    proof {
                        assert(spec_text_pair_views(cells_texts@) =~= spec_list_view_cells(
                            headers,
                            texts.subrange(0, i + 1),
                            leftmost_x as int,
                        ));
                    }
                },
                None => {
                    let distance = (cell.total_display_region.x as i64) - (leftmost_x as i64);
                    if -4 < distance && distance < 4 {
                    } else {
                        let split_texts = split_tag_trimmed(cell_text.as_str());
                        let header_count = entry_headers.len();
                        let split_count = split_texts.len();
                        let limit = if header_count <= split_count {
                            header_count
                        } else {
                            split_count
                        };
                        let ghost cells_before = spec_text_pair_views(cells_texts@);
                        let mut j: usize = 0;
                        while j < limit
                            invariant
                                limit <= entry_headers@.len(),
                                limit <= split_texts@.len(),
                                headers == spec_text_node_views(entry_headers@),
                                limit == if headers.len() <= crate::text::spec_token_views(
                                    split_texts@,
                                ).len() {
                                    headers.len() as int
                                } else {
                                    crate::text::spec_token_views(split_texts@).len() as int
                                },
                                0 <= j <= limit,
                                spec_text_pair_views(cells_texts@) == cells_before
                                    + spec_pair_splits(
                                    headers,
                                    crate::text::spec_token_views(split_texts@),
                                ).subrange(0, j as int),
                            decreases limit - j,
                        {
                            let header_name = entry_headers[j].0.clone();
                            let piece = string_from_chars(&split_texts[j]);
                            let ghost cells_now = spec_text_pair_views(cells_texts@);
                            cells_texts.push((header_name, piece));
                            proof {
                                let pairs = spec_pair_splits(
                                    headers,
                                    crate::text::spec_token_views(split_texts@),
                                );
                                assert(spec_text_pair_views(cells_texts@) =~= cells_now.push(
                                    (headers[j as int].0, crate::text::spec_token_views(
                                        split_texts@,
                                    )[j as int]),
                                ));
                                assert(pairs[j as int] == (headers[j as int].0,
                                    crate::text::spec_token_views(split_texts@)[j as int]));
                                assert(pairs.subrange(0, j + 1) =~= pairs.subrange(
                                    0,
                                    j as int,
                                ).push(pairs[j as int]));
                                assert(spec_text_pair_views(cells_texts@) =~= cells_before
                                    + pairs.subrange(0, j + 1));
                            }
                            j = j + 1;
                        }
                        proof {
                            assert(spec_pair_splits(
                                headers,
                                crate::text::spec_token_views(split_texts@),
                            ).subrange(0, limit as int) =~= spec_pair_splits(
                                headers,
                                crate::text::spec_token_views(split_texts@),
                            ));
                            assert(spec_text_pair_views(cells_texts@) =~= spec_list_view_cells(
                                headers,
                                texts.subrange(0, i + 1),
                                leftmost_x as int,
                            ));
                        }
                    }
                },
            }
            i = i + 1;
        }
        proof {
            assert(texts.subrange(0, n as int) =~= texts);
        }
        cells_texts
    }
}

/// The first region-annotated node of the given type among the list, as a
/// copy.
pub open spec fn spec_find_by_type(s: Seq<RegionNodeView>, wanted_type: Seq<char>) -> Option<
    RegionNodeView,
>
    decreases s.len(),
{
    if s.len() == 0 {
        None
    } else if s[0].ui_node.object_type_name == wanted_type {
        Some(s[0])
    } else {
        spec_find_by_type(s.drop_first(), wanted_type)
    }
}

/// The first child of the given type, as a copy.
pub fn find_first_by_type(children: &Vec<ChildWithRegion>, wanted_type: &str) -> (r: Option<
    UITreeNodeWithDisplayRegion,
>)
    ensures
        match spec_find_by_type(view_of_region_children(children@), wanted_type@) {
            Some(node) => r matches Some(out) && view_of_region_node(out) == node,
            None => r is None,
        },
{
    let ghost views = view_of_region_children(children@);
    let n = children.len();
    let mut i: usize = 0;
    while i < n
        invariant
            n == children@.len(),
            views == view_of_region_children(children@),
            views.len() == n,
            0 <= i <= n,
            forall|k: int| 0 <= k < i ==> (#[trigger] views[k]).ui_node.object_type_name != wanted_type@,
        decreases n - i,
    {
        let child = &children[i];
        if str_eq(child.node.ui_node.object_type_name.as_str(), wanted_type) {
            proof {
                lemma_find_by_type_first(views, wanted_type@, i as int);
            }
            return Some(clone_region_node(&child.node));
        }
        i = i + 1;
    }
    proof {
        lemma_find_by_type_none(views, wanted_type@);
    }
    None
}

/// When the first `i` nodes miss and node `i` hits, the search finds node
/// `i`.
proof fn lemma_find_by_type_first(s: Seq<RegionNodeView>, wanted_type: Seq<char>, i: int)
    requires
        0 <= i < s.len(),
        s[i].ui_node.object_type_name == wanted_type,
        forall|k: int| 0 <= k < i ==> (#[trigger] s[k]).ui_node.object_type_name != wanted_type,
    ensures
        spec_find_by_type(s, wanted_type) == Some(s[i]),
    decreases i,
{
    if i > 0 {
        lemma_find_by_type_first(s.drop_first(), wanted_type, i - 1);
    }
}

/// With no node of the type, the search finds nothing.
proof fn lemma_find_by_type_none(s: Seq<RegionNodeView>, wanted_type: Seq<char>)
    requires
        forall|k: int| 0 <= k < s.len() ==> (#[trigger] s[k]).ui_node.object_type_name != wanted_type,
    ensures
        spec_find_by_type(s, wanted_type) is None,
    decreases s.len(),
{
    if s.len() > 0 {
        assert forall|k: int|
            0 <= k < s.drop_first().len() implies (#[trigger] s.drop_first()[k]).ui_node.object_type_name
            != wanted_type by {
            assert(s.drop_first()[k] == s[k + 1]);
        }
        lemma_find_by_type_none(s.drop_first(), wanted_type);
    }
}

/// The name of the first header aligned over the cell, as a copy.
fn find_matching_header(
    entry_headers: &Vec<(String, UITreeNodeWithDisplayRegion)>,
    cell: &UITreeNodeWithDisplayRegion,
) -> (r: Option<String>)
    ensures
        match spec_find_matching_header(
            spec_text_node_views(entry_headers@),
            view_of_region_node(*cell),
        ) {
            Some(name) => r matches Some(out) && out@ == name,
            None => r is None,
        },
{
    let ghost headers = spec_text_node_views(entry_headers@);
    let n = entry_headers.len();
    let mut i: usize = 0;
    while i < n
        invariant
            n == entry_headers@.len(),
            headers == spec_text_node_views(entry_headers@),
            headers.len() == n,
            0 <= i <= n,
            forall|k: int|
                0 <= k < i ==> !spec_header_matches_cell(
                    spec_region_view((#[trigger] headers[k]).1.total_display_region),
                    spec_region_view(view_of_region_node(*cell).total_display_region),
                ),
        decreases n - i,
    {
        let header = &entry_headers[i];
        if ParserUtils::header_region_matches_cell_region(
            &header.1.total_display_region,
            &cell.total_display_region,
        ) {
            proof {
                lemma_find_matching_header_first(
                    headers,
                    view_of_region_node(*cell),
                    i as int,
                );
            }
            return Some(header.0.clone());
        }
        i = i + 1;
    }
    proof {
        lemma_find_matching_header_none(headers, view_of_region_node(*cell));
    }
    None
}

proof fn lemma_find_matching_header_first(
    s: Seq<(Seq<char>, RegionNodeView)>,
    cell: RegionNodeView,
    i: int,
)
    requires
        0 <= i < s.len(),
        spec_header_matches_cell(
            spec_region_view(s[i].1.total_display_region),
            spec_region_view(cell.total_display_region),
        ),
        forall|k: int|
            0 <= k < i ==> !spec_header_matches_cell(
                spec_region_view((#[trigger] s[k]).1.total_display_region),
                spec_region_view(cell.total_display_region),
            ),
    ensures
        spec_find_matching_header(s, cell) == Some(s[i].0),
    decreases i,
{
    if i > 0 {
        lemma_find_matching_header_first(s.drop_first(), cell, i - 1);
    }
}

proof fn lemma_find_matching_header_none(
    s: Seq<(Seq<char>, RegionNodeView)>,
    cell: RegionNodeView,
)
    requires
        forall|k: int|
            0 <= k < s.len() ==> !spec_header_matches_cell(
                spec_region_view((#[trigger] s[k]).1.total_display_region),
                spec_region_view(cell.total_display_region),
            ),
    ensures
        spec_find_matching_header(s, cell) is None,
    decreases s.len(),
{
    if s.len() > 0 {
        assert forall|k: int|
            0 <= k < s.drop_first().len() implies !spec_header_matches_cell(
            spec_region_view((#[trigger] s.drop_first()[k]).1.total_display_region),
            spec_region_view(cell.total_display_region),
        ) by {
            assert(s.drop_first()[k] == s[k + 1]);
        }
        lemma_find_matching_header_none(s.drop_first(), cell);
    }
}

/// The text split on `<t>` separators, trimmed, empties dropped.
#[verifier::rlimit(100)]
pub fn split_tag_trimmed(text: &str) -> (r: Vec<Vec<char>>)
    ensures
        crate::text::spec_token_views(r@) == spec_split_tag_trimmed(text@),
{
    let chars = chars_of(text);
    let mut out: Vec<Vec<char>> = Vec::new();
    let mut pos: usize = 0;
    let n = chars.len();
    proof {
        assert(chars@.subrange(0, n as int) =~= chars@);
        assert(crate::text::spec_token_views(out@) =~= Seq::<Seq<char>>::empty());
    }
    while pos <= n
        invariant_except_break
            n == chars@.len(),
            chars@ == text@,
            0 <= pos <= n,
            spec_split_tag_trimmed(text@) == crate::text::spec_token_views(out@)
                + spec_split_tag_trimmed(chars@.subrange(pos as int, n as int)),
        ensures
            crate::text::spec_token_views(out@) == spec_split_tag_trimmed(text@),
        decreases n + 1 - pos,
    {
        let ghost suffix = chars@.subrange(pos as int, n as int);
        // Find the next separator.
        let mut tag_at: usize = pos;
        let mut found = false;
        while !found && n >= 3 && tag_at <= n - 3
            invariant
                n == chars@.len(),
                pos <= tag_at <= n,
                found ==> n >= 3 && tag_at <= n - 3 && chars@[tag_at as int] == '<' && chars@[
                    tag_at + 1
                ] == 't' && chars@[tag_at + 2] == '>',
                forall|k: int|
                    pos <= k < tag_at && k + 3 <= n ==> !((#[trigger] chars@[k]) == '<'
                        && chars@[k + 1] == 't' && chars@[k + 2] == '>'),
            decreases n - tag_at + (if found { 0int } else { 1int }),
        {
            if chars[tag_at] == '<' && chars[tag_at + 1] == 't' && chars[tag_at + 2] == '>' {
                found = true;
            } else {
                tag_at = tag_at + 1;
            }
        }
        let piece_end: usize = if found {
            tag_at
        } else {
            n
        };
        proof {
            reveal_strlit("<t>");
            assert forall|k: int|
                0 <= k < piece_end - pos && k + 3 <= suffix.len() implies (#[trigger] suffix.subrange(
                k,
                k + 3,
            )) != "<t>"@ by {
                assert(suffix.subrange(k, k + 3)[0] == chars@[pos + k]);
                assert(suffix.subrange(k, k + 3)[1] == chars@[pos + k + 1]);
                assert(suffix.subrange(k, k + 3)[2] == chars@[pos + k + 2]);
            }
            if found {
                assert(suffix.subrange(tag_at - pos, tag_at - pos + 3) =~= "<t>"@);
                lemma_first_tag_at(suffix, tag_at - pos);
            } else {
                lemma_first_tag_at(suffix, suffix.len() as int);
            }
        }
        let mut piece: Vec<char> = Vec::new();
        let mut i: usize = pos;
        while i < piece_end
            invariant
                n == chars@.len(),
                pos <= i <= piece_end <= n,
                piece@.len() == i - pos,
                forall|k: int| 0 <= k < i - pos ==> piece@[k] == chars@[pos + k],
            decreases piece_end - i,
        {
            piece.push(chars[i]);
            i = i + 1;
        }
        proof {
            assert(piece@ =~= suffix.subrange(0, piece_end - pos));
        }
        let trimmed = trim_chars(&piece);
        let ghost out_before = crate::text::spec_token_views(out@);
        if trimmed.len() > 0 {
            out.push(trimmed);
            proof {
                assert(crate::text::spec_token_views(out@) =~= out_before.push(out@.last()@));
            }
        }
        if found {
            proof {
                assert(suffix.subrange(tag_at - pos + 3, suffix.len() as int) =~= chars@.subrange(
                    tag_at + 3,
                    n as int,
                ));
                assert(crate::text::spec_token_views(out@) + spec_split_tag_trimmed(
                    chars@.subrange(tag_at + 3, n as int),
                ) =~= spec_split_tag_trimmed(text@));
            }
            pos = tag_at + 3;
        } else {
            proof {
                assert(suffix.subrange(0, piece_end - pos) =~= suffix);
                assert(crate::text::spec_token_views(out@) =~= spec_split_tag_trimmed(text@));
            }
            break;
        }
    }
    out
}

/// When no separator starts before `i` and one starts at `i` (or `i` is
/// past the last possible start), the first-separator index is `i` (or past
/// the last possible start).
proof fn lemma_first_tag_at(s: Seq<char>, i: int)
    requires
        0 <= i <= s.len(),
        forall|k: int|
            0 <= k < i && k + 3 <= s.len() ==> (#[trigger] s.subrange(k, k + 3)) != "<t>"@,
        i + 3 <= s.len() ==> s.subrange(i, i + 3) == "<t>"@,
    ensures
        i + 3 <= s.len() ==> spec_first_tag(s) == i,
        i + 3 > s.len() ==> spec_first_tag(s) + 3 > s.len(),
    decreases i,
{
    reveal_strlit("<t>");
    if s.len() < 3 {
    } else if i == 0 {
        if s.subrange(0, 3) != "<t>"@ {
            lemma_first_tag_min(s.drop_first());
        }
    } else {
        assert(0 + 3 <= s.len());
        assert(s.subrange(0, 3) != "<t>"@);
        assert forall|k: int|
            0 <= k < i - 1 && k + 3 <= s.drop_first().len() implies (#[trigger] s.drop_first().subrange(
            k,
            k + 3,
        )) != "<t>"@ by {
            assert(s.drop_first().subrange(k, k + 3) =~= s.subrange(k + 1, k + 4));
            assert(s.subrange(k + 1, (k + 1) + 3) != "<t>"@);
        }
        if i + 3 <= s.len() {
            assert(s.drop_first().subrange(i - 1, i + 2) =~= s.subrange(i, i + 3));
        }
        lemma_first_tag_at(s.drop_first(), i - 1);
    }
}

/// The first-separator index is never negative.
proof fn lemma_first_tag_min(s: Seq<char>)
    ensures
        spec_first_tag(s) >= 0,
    decreases s.len(),
{
    if s.len() >= 3 && s.subrange(0, 3) != "<t>"@ {
        lemma_first_tag_min(s.drop_first());
    }
}


/// The index of the first `.`, or the length if none occurs.
pub open spec fn spec_first_dot(s: Seq<char>) -> int
    decreases s.len(),
{
    if s.len() == 0 {
        0
    } else if s[0] == '.' {
        0
    } else {
        1 + spec_first_dot(s.drop_first())
    }
}

/// Whether every character is a decimal digit.
pub open spec fn spec_all_digits(s: Seq<char>) -> bool {
    forall|i: int| 0 <= i < s.len() ==> crate::text::spec_is_digit(#[trigger] s[i])
}

/// Ten to the power `n`.
pub open spec fn spec_ten_pow(n: nat) -> int
    decreases n,
{
    if n == 0 {
        1
    } else {
        10 * spec_ten_pow((n - 1) as nat)
    }
}

/// A digit string's value is below ten to its length.
proof fn lemma_digits_value_bound(s: Seq<char>)
    requires
        spec_all_digits(s),
    ensures
        0 <= crate::text::spec_digits_value(s) < spec_ten_pow(s.len()),
    decreases s.len(),
{
    if s.len() > 0 {
        assert(spec_all_digits(s.drop_last())) by {
            assert(forall|i: int|
                0 <= i < s.len() - 1 ==> (#[trigger] s.drop_last()[i]) == s[i]);
        }
        lemma_digits_value_bound(s.drop_last());
    }
}

/// The percent value of a plain decimal text: one to seven integer digits,
/// optionally a dot and fractional digits; the value scaled by one hundred
/// and rounded to the nearest integer, half away from zero. Signs,
/// exponents and other notations are not read.
pub open spec fn spec_percent_of_decimal(s: Seq<char>) -> Option<int> {
    let dot = spec_first_dot(s);
    let int_part = s.subrange(0, dot);
    let frac = if dot < s.len() {
        s.subrange(dot + 1, s.len() as int)
    } else {
        Seq::empty()
    };
    if 1 <= int_part.len() <= 7 && spec_all_digits(int_part) && spec_all_digits(frac) {
        let d1: int = if frac.len() >= 1 {
            frac[0] as u32 - 48
        } else {
            0
        };
        let d2: int = if frac.len() >= 2 {
            frac[1] as u32 - 48
        } else {
            0
        };
        let d3: int = if frac.len() >= 3 {
            frac[2] as u32 - 48
        } else {
            0
        };
        Some(
            crate::text::spec_digits_value(int_part) * 100 + d1 * 10 + d2 + (if d3 >= 5 {
                1int
            } else {
                0int
            }),
        )
    } else {
        None
    }
}

/// The node's `_opacity` value as a percent, when its string reads as a
/// plain decimal; see [`spec_percent_of_decimal`].
pub open spec fn spec_opacity_percent(n: NodeView) -> Option<int> {
    match spec_string_property(n, "_opacity"@) {
        None => None,
        Some(s) => spec_percent_of_decimal(s),
    }
}

/// When no dot occurs before `i` and one occurs at `i` (or the text ends),
/// the first-dot index is `i`.
proof fn lemma_first_dot_at(s: Seq<char>, i: int)
    requires
        0 <= i <= s.len(),
        forall|k: int| 0 <= k < i ==> (#[trigger] s[k]) != '.',
        i < s.len() ==> s[i] == '.',
    ensures
        spec_first_dot(s) == i,
    decreases i,
{
    if i > 0 {
        lemma_first_dot_at(s.drop_first(), i - 1);
    }
}

impl ParserUtils {
    /// See [`spec_opacity_percent`].
    #[verifier::loop_isolation(false)]
    pub fn get_opacity_from_dict_entries(ui_tree_node: &UiTreeNode) -> (r: Option<i32>)
        ensures
            match spec_opacity_percent(view_of_node(*ui_tree_node)) {
                Some(v) => r matches Some(out) && out as int == v,
                None => r is None,
            },
    {
        let opacity = match ParserUtils::get_string_property_from_dict_entries(
            ui_tree_node,
            "_opacity",
        ) {
            Some(s) => s,
            None => {
                return None;
            },
        };
        let chars = chars_of(opacity.as_str());
        let n = chars.len();
        let mut dot: usize = 0;
        while dot < n && chars[dot] != '.'
            invariant
                0 <= dot <= n,
                forall|k: int| 0 <= k < dot ==> (#[trigger] chars@[k]) != '.',
            decreases n - dot,
        {
            dot = dot + 1;
        }
        proof {
            lemma_first_dot_at(chars@, dot as int);
        }
        if dot < 1 || dot > 7 {
            return None;
        }
        let ghost int_part = chars@.subrange(0, dot as int);
        let ghost frac = if (dot as int) < chars@.len() {
            chars@.subrange(dot + 1, n as int)
        } else {
            Seq::empty()
        };
        // The integer digits.
        let mut value: i32 = 0;
        let mut i: usize = 0;
        while i < dot
            invariant
                0 <= i <= dot,
                spec_all_digits(int_part.subrange(0, i as int)),
                value as int == crate::text::spec_digits_value(int_part.subrange(0, i as int)),
                0 <= value as int,
                (value as int) < spec_ten_pow(i as nat),
                i <= 7,
            decreases dot - i,
        {
            let c = chars[i];
            let u = c as u32;
            if !(48 <= u && u <= 57) {
                proof {
                    assert(!crate::text::spec_is_digit(int_part[i as int]));
                }
                return None;
            }
            proof {
                assert(int_part.subrange(0, i + 1).drop_last() =~= int_part.subrange(
                    0,
                    i as int,
                ));
                assert(int_part.subrange(0, i + 1).last() == int_part[i as int]);
                assert(spec_ten_pow((i + 1) as nat) <= spec_ten_pow(7)) by {
                    lemma_ten_pow_increases((i + 1) as nat, 7);
                }
                assert(spec_ten_pow(7) == 10000000) by {
                    reveal_with_fuel(spec_ten_pow, 9);
                }
            }
            value = value * 10 + ((u - 48) as i32);
            i = i + 1;
        }
        proof {
            assert(int_part.subrange(0, dot as int) =~= int_part);
            assert(spec_ten_pow(dot as nat) <= spec_ten_pow(7)) by {
                lemma_ten_pow_increases(dot as nat, 7);
            }
            assert(spec_ten_pow(7) == 10000000) by {
                reveal_with_fuel(spec_ten_pow, 9);
            }
        }
        // The fractional digits, all checked, the first three kept.
        let mut d1: i32 = 0;
        let mut d2: i32 = 0;
        let mut d3: i32 = 0;
        if dot < n {
            let mut j: usize = dot + 1;
            while j < n
                invariant
                    dot + 1 <= j <= n,
                    spec_all_digits(frac.subrange(0, j - dot - 1)),
                decreases n - j,
            {
                let c = chars[j];
                let u = c as u32;
                if !(48 <= u && u <= 57) {
                    proof {
                        assert(!crate::text::spec_is_digit(frac[j - dot - 1]));
                    }
                    return None;
                }
                proof {
                    assert(forall|k: int|
                        0 <= k < j - dot ==> frac.subrange(0, j - dot)[k] == frac[k]);
                }
                j = j + 1;
            }
            proof {
                assert(frac.subrange(0, n - dot - 1) =~= frac);
            }
            if dot + 1 < n {
                d1 = ((chars[dot + 1] as u32) - 48) as i32;
            }
            if dot + 2 < n {
                d2 = ((chars[dot + 2] as u32) - 48) as i32;
            }
            if dot + 3 < n {
                d3 = ((chars[dot + 3] as u32) - 48) as i32;
            }
        }
        let rounded: i32 = value * 100 + d1 * 10 + d2 + (if d3 >= 5 {
            1
        } else {
            0
        });
        Some(rounded)
    }
}

/// `spec_ten_pow` never decreases.
proof fn lemma_ten_pow_increases(a: nat, b: nat)
    requires
        a <= b,
    ensures
        spec_ten_pow(a) <= spec_ten_pow(b),
    decreases b,
{
    if a < b {
        lemma_ten_pow_increases(a, (b - 1) as nat);
        lemma_ten_pow_pos((b - 1) as nat);
    }
}

proof fn lemma_ten_pow_pos(n: nat)
    ensures
        spec_ten_pow(n) >= 1,
    decreases n,
{
    if n > 0 {
        lemma_ten_pow_pos((n - 1) as nat);
    }
}

} // verus!
