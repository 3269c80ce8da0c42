//! Geometry annotation over decoded raw trees: locating a node's own
//! rectangle, computing absolute rectangles by offset accumulation,
//! splitting children by geometry, and annotating sibling occlusion.

use vstd::prelude::*;
use crate::values::DictEntry;
use crate::ui_tree_node::UiTreeNode;
use crate::ui_tree_node::NodeView;
use crate::ui_tree_node::UITreeNodeWithDisplayRegion;
use crate::ui_tree_node::ChildWithRegion;
use crate::ui_tree_node::ChildWithoutRegion;
use crate::ui_tree_node::ChildOfNode;
use crate::ui_tree_node::RegionNodeView;
use crate::ui_tree_node::view_of_node;
use crate::ui_tree_node::view_of_nodes;
use crate::ui_tree_node::view_of_region_node;
use crate::ui_tree_node::view_of_region_children;
use crate::ui_tree_node::view_of_nodes_of_children;
use crate::ui_tree_node::clone_ui_tree_node;
use crate::ui_tree_node::clone_region_node;
use crate::values::view_of_entries;
use crate::ui_utils::UiUtils;
use crate::ui_utils::spec_node_occludes;
use crate::display_region::DisplayRegion;
use crate::ui_tree_node_extractor::spec_display_region_from_entries;
use crate::ui_tree_node_extractor::spec_has_occluder;

verus! {

/// The outcome of annotating a forest of raw children against a parent
/// origin.
pub struct AnnotatedChildren {
    pub with_region: Seq<RegionNodeView>,
    pub without_region: Seq<NodeView>,
    pub occluded: Seq<DisplayRegion>,
}

/// Annotates a raw node whose own and absolute rectangles are known:
/// children with all four `_display*` properties are annotated recursively
/// against this node's absolute origin, the others are kept raw, and the
/// absolute regions of region-bearing children that follow an occluding
/// sibling are recorded.
pub open spec fn spec_annotate_node(
    n: NodeView,
    self_region: DisplayRegion,
    total_region: DisplayRegion,
) -> RegionNodeView
    decreases n, 1int,
{
    let children = spec_annotate_children(n.children, total_region.x, total_region.y);
    RegionNodeView {
        ui_node: n,
        child_with_region: children.with_region,
        child_without_region: children.without_region,
        self_display_region: self_region,
        total_display_region: total_region,
        total_display_region_visible: DisplayRegion {
            x: (-1) as i32,
            y: (-1) as i32,
            width: 0,
            height: 0,
        },
        occluded_regions: children.occluded,
    }
}

/// Annotates a forest of raw children against a parent origin, in order.
pub open spec fn spec_annotate_children(s: Seq<NodeView>, origin_x: i32, origin_y: i32) -> AnnotatedChildren
    decreases s, 0int,
{
    if s.len() == 0 {
        AnnotatedChildren {
            with_region: Seq::empty(),
            without_region: Seq::empty(),
            occluded: Seq::empty(),
        }
    } else {
        let prev = spec_annotate_children(s.drop_last(), origin_x, origin_y);
        let c = s.last();
        match spec_display_region_from_entries(c.dict_entries_of_interest) {
            Some(self_region) => {
                let total_region = self_region.spec_translated_by(origin_x, origin_y);
                let node = spec_annotate_node(c, self_region, total_region);
                AnnotatedChildren {
                    with_region: prev.with_region.push(node),
                    without_region: prev.without_region,
                    occluded: if spec_has_occluder(prev.with_region) {
                        prev.occluded.push(total_region)
                    } else {
                        prev.occluded
                    },
                }
            },
            None => AnnotatedChildren {
                with_region: prev.with_region,
                without_region: prev.without_region.push(c),
                occluded: prev.occluded,
            },
        }
    }
}

/// The depth-first region-bearing descendants of a forest: each child
/// followed by its own region-bearing descendants.
pub open spec fn spec_region_descendants(s: Seq<RegionNodeView>) -> Seq<RegionNodeView>
    decreases s, 0int,
{
    if s.len() == 0 {
        Seq::empty()
    } else {
        spec_region_descendants(s.drop_last()) + seq![s.last()] + spec_region_descendants_of(
            s.last(),
        )
    }
}

/// The region-bearing descendants below one node.
pub open spec fn spec_region_descendants_of(n: RegionNodeView) -> Seq<RegionNodeView>
    decreases n, 1int,
{
    spec_region_descendants(n.child_with_region)
}

/// Geometry helpers over decoded nodes.
pub struct DisplayRegionUtils;

impl DisplayRegionUtils {
    /// The rectangle stored in the four `_display*` properties, when all
    /// four read as integers.
    pub fn get_display_region_from_dict_entries(entries_of_interest: &Vec<DictEntry>) -> (r:
        Option<DisplayRegion>)
        ensures
            r == spec_display_region_from_entries(view_of_entries(entries_of_interest@)),
    {
        let display_x = UiUtils::fixed_number_from_property_name("_displayX", entries_of_interest);
        let display_y = UiUtils::fixed_number_from_property_name("_displayY", entries_of_interest);
        let display_width = UiUtils::fixed_number_from_property_name(
            "_displayWidth",
            entries_of_interest,
        );
        let display_height = UiUtils::fixed_number_from_property_name(
            "_displayHeight",
            entries_of_interest,
        );
        match (display_x, display_y, display_width, display_height) {
            (Some(x), Some(y), Some(width), Some(height)) => Some(
                DisplayRegion { x, y, width, height },
            ),
            _ => None,
        }
    }

    /// The node's own rectangle, when it has one.
    pub fn create_display_region_from_ui_node(ui_node: &UiTreeNode) -> (r: Option<DisplayRegion>)
        ensures
            r == spec_display_region_from_entries(
                view_of_node(*ui_node).dict_entries_of_interest,
            ),
    {
        DisplayRegionUtils::get_display_region_from_dict_entries(&ui_node.dict_entries_of_interest)
    }

    /// Whether the node's type occludes all following siblings in z-order.
    pub fn node_occludes_following_nodes(node: &UITreeNodeWithDisplayRegion) -> (r: bool)
        ensures
            r == spec_node_occludes(node.ui_node.object_type_name@),
    {
        UiUtils::node_occludes_following_nodes(node)
    }

    /// Annotates a raw node with known own and absolute rectangles; the
    /// node's own occlusion annotation is also appended to
    /// `occluded_regions`.
    pub fn parse_child_of_node_with_display_region(
        ui_tree_node: &UiTreeNode,
        self_display_region: DisplayRegion,
        total_display_region: DisplayRegion,
        occluded_regions: &mut Vec<DisplayRegion>,
    ) -> (r: UITreeNodeWithDisplayRegion)
        ensures
            view_of_region_node(r) == spec_annotate_node(
                view_of_node(*ui_tree_node),
                self_display_region,
                total_display_region,
            ),
            final(occluded_regions)@ == old(occluded_regions)@ + spec_annotate_children(
                view_of_node(*ui_tree_node).children,
                total_display_region.x,
                total_display_region.y,
            ).occluded,
        decreases *ui_tree_node, 1int,
    {
        let ghost children_views = view_of_nodes(ui_tree_node.children@);
        let mut childs_with_region: Vec<ChildWithRegion> = Vec::new();
        let mut childs_without_region: Vec<ChildWithoutRegion> = Vec::new();
        let mut occluded: Vec<DisplayRegion> = Vec::new();
        let mut occluder_present: bool = false;
        let n = ui_tree_node.children.len();
        proof {
            assert(children_views.subrange(0, 0) =~= Seq::<NodeView>::empty());
            assert(view_of_region_children(childs_with_region@) =~= Seq::<RegionNodeView>::empty());
            assert(view_of_nodes_of_children(childs_without_region@) =~= Seq::<NodeView>::empty());
        }
        let mut i: usize = 0;
        while i < n
            invariant
                n == ui_tree_node.children@.len(),
                children_views == view_of_nodes(ui_tree_node.children@),
                children_views.len() == n,
                0 <= i <= n,
                ({
                    let ac = spec_annotate_children(
                        children_views.subrange(0, i as int),
                        total_display_region.x,
                        total_display_region.y,
                    );
                    &&& view_of_region_children(childs_with_region@) == ac.with_region
                    &&& view_of_nodes_of_children(childs_without_region@) == ac.without_region
                    &&& occluded@ == ac.occluded
                    &&& occluder_present == spec_has_occluder(ac.with_region)
                }),
            decreases n - i,
        {
            let ghost ac_before = spec_annotate_children(
                children_views.subrange(0, i as int),
                total_display_region.x,
                total_display_region.y,
            );
            proof {
                assert(children_views.subrange(0, i + 1).drop_last() =~= children_views.subrange(
                    0,
                    i as int,
                ));
                assert(children_views.subrange(0, i + 1).last() == view_of_node(
                    ui_tree_node.children@[i as int],
                ));
                assert(decreases_to!(*ui_tree_node => ui_tree_node.children@[i as int]));
            }
            let x = &ui_tree_node.children[i];
            match DisplayRegionUtils::create_display_region_from_ui_node(x) {
                Some(self_region) => {
                    let child_total = self_region.translated_by(
                        total_display_region.x,
                        total_display_region.y,
                    );
                    let child_node = DisplayRegionUtils::build_region_node(
                        x,
                        self_region,
                        child_total,
                    );
                    if occluder_present {
                        occluded.push(child_total);
                    }
                    let child_occludes = UiUtils::node_occludes_following_nodes(&child_node);
                    proof {
                        crate::ui_tree_node_extractor::lemma_has_occluder_push_public(
                            ac_before.with_region,
                            view_of_region_node(child_node),
                        );
                    }
                    childs_with_region.push(ChildWithRegion { node: child_node });
                    if child_occludes {
                        occluder_present = true;
                    }
                    proof {
                        assert(view_of_region_children(childs_with_region@)
                            =~= ac_before.with_region.push(
                            view_of_region_node(childs_with_region@.last().node),
                        ));
                    }
                },
                None => {
                    childs_without_region.push(
                        ChildWithoutRegion { node: clone_ui_tree_node(x) },
                    );
                    proof {
                        assert(view_of_nodes_of_children(childs_without_region@)
                            =~= ac_before.without_region.push(
                            view_of_node(childs_without_region@.last().node),
                        ));
                    }
                },
            }
            i = i + 1;
        }
        proof {
            assert(children_views.subrange(0, n as int) =~= children_views);
        }
        let ghost occluded_before = occluded_regions@;
        let occluded_copy = copy_regions(&occluded);
        let mut occluded_to_append = occluded_copy;
        occluded_regions.append(&mut occluded_to_append);
        proof {
            assert(occluded_regions@ =~= occluded_before + occluded@);
        }
        UITreeNodeWithDisplayRegion {
            ui_node: clone_ui_tree_node(ui_tree_node),
            child_with_region: childs_with_region,
            child_without_region: childs_without_region,
            self_display_region,
            total_display_region,
            total_display_region_visible: DisplayRegion::new(-1, -1, 0, 0),
            occluded_regions: occluded,
        }
    }

    /// Annotates a raw node with known rectangles, without the out-parameter.
    fn build_region_node(
        ui_tree_node: &UiTreeNode,
        self_display_region: DisplayRegion,
        total_display_region: DisplayRegion,
    ) -> (r: UITreeNodeWithDisplayRegion)
        ensures
            view_of_region_node(r) == spec_annotate_node(
                view_of_node(*ui_tree_node),
                self_display_region,
                total_display_region,
            ),
        decreases *ui_tree_node, 2int,
    {
        let mut unused: Vec<DisplayRegion> = Vec::new();
        DisplayRegionUtils::parse_child_of_node_with_display_region(
            ui_tree_node,
            self_display_region,
            total_display_region,
            &mut unused,
        )
    }

    /// Annotates a raw child against an inherited origin: with its own
    /// rectangle when it has one, raw otherwise.
    pub fn create_display_region_node_with_offset(
        inherited_offset: (i32, i32),
        occluded_regions: &mut Vec<DisplayRegion>,
        raw_node: &UiTreeNode,
    ) -> (r: ChildOfNode)
        ensures
            match spec_display_region_from_entries(
                view_of_node(*raw_node).dict_entries_of_interest,
            ) {
                Some(self_region) => {
                    &&& r matches ChildOfNode::WithRegion(child) && view_of_region_node(child.node)
                        == spec_annotate_node(
                        view_of_node(*raw_node),
                        self_region,
                        self_region.spec_translated_by(inherited_offset.0, inherited_offset.1),
                    )
                    &&& final(occluded_regions)@ == old(occluded_regions)@ + spec_annotate_children(
                        view_of_node(*raw_node).children,
                        self_region.spec_translated_by(
                            inherited_offset.0,
                            inherited_offset.1,
                        ).x,
                        self_region.spec_translated_by(
                            inherited_offset.0,
                            inherited_offset.1,
                        ).y,
                    ).occluded
                },
                None => r matches ChildOfNode::WithoutRegion(child) && view_of_node(child.node)
                    == view_of_node(*raw_node) && final(occluded_regions)@ == old(
                    occluded_regions,
                )@,
            },
    {
        match DisplayRegionUtils::create_display_region_from_ui_node(raw_node) {
            Some(self_region) => {
                let total_display_region = self_region.translated_by(
                    inherited_offset.0,
                    inherited_offset.1,
                );
                let tree_node_with_display_region =
                    DisplayRegionUtils::parse_child_of_node_with_display_region(
                    raw_node,
                    self_region,
                    total_display_region,
                    occluded_regions,
                );
                ChildOfNode::WithRegion(ChildWithRegion { node: tree_node_with_display_region })
            },
            None => ChildOfNode::WithoutRegion(
                ChildWithoutRegion { node: clone_ui_tree_node(raw_node) },
            ),
        }
    }

    /// The child when it carries geometry, nothing otherwise.
    pub fn just_case_with_display_region(child: ChildOfNode) -> (r: Option<ChildWithRegion>)
        ensures
            match child {
                ChildOfNode::WithRegion(c) => r matches Some(out) && out == c,
                ChildOfNode::WithoutRegion(_) => r is None,
            },
    {
        match child {
            ChildOfNode::WithRegion(c) => Some(c),
            ChildOfNode::WithoutRegion(_) => None,
        }
    }

    /// The depth-first region-bearing descendants of the given children, as
    /// copies: each child followed by its own region-bearing descendants.
    pub fn list_descendants_with_display_region(children: &Vec<ChildWithRegion>) -> (r: Vec<
        ChildWithRegion,
    >)
        ensures
            view_of_region_children(r@) == spec_region_descendants(
                view_of_region_children(children@),
            ),
        decreases *children, 0int,
    {
        let ghost views = view_of_region_children(children@);
        let mut all_descendants: Vec<ChildWithRegion> = Vec::new();
        let n = children.len();
        proof {
            assert(views.subrange(0, 0) =~= Seq::<RegionNodeView>::empty());
            assert(view_of_region_children(all_descendants@) =~= Seq::<RegionNodeView>::empty());
        }
        let mut i: usize = 0;
        while i < n
            invariant
                n == children@.len(),
                views == view_of_region_children(children@),
                views.len() == n,
                0 <= i <= n,
                view_of_region_children(all_descendants@) == spec_region_descendants(
                    views.subrange(0, i as int),
                ),
            decreases n - i,
        {
            proof {
                assert(views.subrange(0, i + 1).drop_last() =~= views.subrange(0, i as int));
                assert(views.subrange(0, i + 1).last() == view_of_region_node(
                    children@[i as int].node,
                ));
                assert(decreases_to!(*children => children@[i as int]));
            }
            let ghost prefix_descendants = view_of_region_children(all_descendants@);
            let child_with_region = &children[i];
            all_descendants.push(ChildWithRegion { node: clone_region_node(&child_with_region.node) });
            proof {
                assert(view_of_region_children(all_descendants@) =~= prefix_descendants.push(
                    views[i as int],
                ));
            }
            let mut descendants = DisplayRegionUtils::list_descendants_with_display_region(
                &child_with_region.node.child_with_region,
            );
            let ghost before = all_descendants@;
            let ghost added = descendants@;
            all_descendants.append(&mut descendants);
            proof {
                assert(all_descendants@ =~= before + added);
                assert(view_of_region_children(all_descendants@) =~= view_of_region_children(
                    before,
                ) + view_of_region_children(added));
                assert(view_of_region_children(added) == spec_region_descendants_of(
                    views[i as int],
                ));
                assert(view_of_region_children(all_descendants@) =~= spec_region_descendants(
                    views.subrange(0, i as int),
                ) + seq![views[i as int]] + spec_region_descendants_of(views[i as int]));
            }
            i = i + 1;
        }
        proof {
            assert(views.subrange(0, n as int) =~= views);
        }
        all_descendants
    }

    /// The region-bearing children among the given ones, as copies, in
    /// order.
    pub fn list_children_with_display_region(children_of_node: &Vec<ChildOfNode>) -> (r: Vec<
        ChildWithRegion,
    >)
        ensures
            view_of_region_children(r@) == spec_with_region_of(children_of_node@),
    {
        let n = children_of_node.len();
        let mut out: Vec<ChildWithRegion> = Vec::new();
        proof {
            assert(children_of_node@.subrange(0, 0) =~= Seq::<ChildOfNode>::empty());
            assert(view_of_region_children(out@) =~= Seq::<RegionNodeView>::empty());
        }
        let mut i: usize = 0;
        while i < n
            invariant
                n == children_of_node@.len(),
                0 <= i <= n,
                view_of_region_children(out@) == spec_with_region_of(
                    children_of_node@.subrange(0, i as int),
                ),
            decreases n - i,
        {
            proof {
                assert(children_of_node@.subrange(0, i + 1).drop_last()
                    =~= children_of_node@.subrange(0, i as int));
                assert(children_of_node@.subrange(0, i + 1).last() == children_of_node@[i as int]);
            }
            match &children_of_node[i] {
                ChildOfNode::WithRegion(child) => {
                    out.push(ChildWithRegion { node: clone_region_node(&child.node) });
                    proof {
                        assert(view_of_region_children(out@) =~= spec_with_region_of(
                            children_of_node@.subrange(0, i + 1),
                        ));
                    }
                },
                ChildOfNode::WithoutRegion(_) => {},
            }
            i = i + 1;
        }
        proof {
            assert(children_of_node@.subrange(0, n as int) =~= children_of_node@);
        }
        out
    }
}

/// The annotated views of the region-bearing children among a mixed list.
pub open spec fn spec_with_region_of(s: Seq<ChildOfNode>) -> Seq<RegionNodeView>
    decreases s,
{
    if s.len() == 0 {
        Seq::empty()
    } else {
        let rest = spec_with_region_of(s.drop_last());
        match s.last() {
            ChildOfNode::WithRegion(child) => rest.push(view_of_region_node(child.node)),
            ChildOfNode::WithoutRegion(_) => rest,
        }
    }
}

/// A plain copy of a rectangle list.
fn copy_regions(regions: &Vec<DisplayRegion>) -> (r: Vec<DisplayRegion>)
    ensures
        r@ == regions@,
{
    let mut out: Vec<DisplayRegion> = Vec::new();
    let n = regions.len();
    let mut i: usize = 0;
    while i < n
        invariant
            n == regions@.len(),
            0 <= i <= n,
            out@.len() == i,
            forall|k: int| 0 <= k < i ==> #[trigger] out@[k] == regions@[k],
        decreases n - i,
    {
        out.push(regions[i]);
        i = i + 1;
    }
    proof {
        assert(out@ =~= regions@);
    }
    out
}

} // verus!
