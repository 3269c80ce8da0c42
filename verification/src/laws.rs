//! Crate-wide laws of the extraction, stated and proved over the decode
//! specifications.

use vstd::prelude::*;
use crate::memory::MemorySnapshot;
use crate::ui_tree_node::NodeView;
use crate::ui_tree_node::RegionNodeView;
use crate::ui_tree_node_extractor::spec_read_ui_tree;
use crate::ui_tree_node_extractor::spec_process_children;
use crate::ui_tree_node_extractor::spec_display_region_from_entries;
use crate::display_region_utils::spec_annotate_node;
use crate::display_region_utils::spec_annotate_children;
use crate::display_region::DisplayRegion;

verus! {

/// Whether every region-bearing child in the list has its absolute
/// rectangle equal to its own rectangle translated by the parent origin,
/// recursively.
pub open spec fn spec_children_consistent(s: Seq<RegionNodeView>, origin_x: i32, origin_y: i32) -> bool
    decreases s, 0int,
{
    if s.len() == 0 {
        true
    } else {
        &&& spec_children_consistent(s.drop_last(), origin_x, origin_y)
        &&& s.last().total_display_region == s.last().self_display_region.spec_translated_by(
            origin_x,
            origin_y,
        )
        &&& spec_node_consistent(s.last())
    }
}

/// Whether a node's region-bearing descendants all satisfy the offset
/// accumulation rule against their parents' absolute origins.
pub open spec fn spec_node_consistent(n: RegionNodeView) -> bool
    decreases n, 1int,
{
    spec_children_consistent(
        n.child_with_region,
        n.total_display_region.x,
        n.total_display_region.y,
    )
}

/// For every node that decodes, each region-bearing child's absolute
/// rectangle is its own rectangle translated by its parent's absolute
/// origin, all the way down; and the root's absolute rectangle is its own
/// rectangle (translated by the inherited origin where one is given).
pub proof fn lemma_total_region_offset(
    mem: MemorySnapshot,
    node_address: u64,
    depth: nat,
    inherited: Option<(i32, i32)>,
)
    ensures
        match spec_read_ui_tree(mem, node_address, depth, inherited) {
            Ok((n, _)) => {
                &&& spec_node_consistent(n)
                &&& inherited is None ==> n.total_display_region == n.self_display_region
                &&& (inherited matches Some((ox, oy)) ==> n.total_display_region
                    == n.self_display_region.spec_translated_by(ox, oy))
            },
            Err(_) => true,
        },
    decreases depth, 1int, 0int,
{
    match spec_read_ui_tree(mem, node_address, depth, inherited) {
        Ok((n, _)) => {
            if depth > 0 {
                lemma_children_offset(
                    mem,
                    spec_children_addrs_of(mem, node_address, depth, inherited),
                    (depth - 1) as nat,
                    n.total_display_region.x,
                    n.total_display_region.y,
                );
            }
        },
        Err(_) => {},
    }
}

/// The child addresses a decoding node walks, or the empty list where it
/// walks none.
pub open spec fn spec_children_addrs_of(
    mem: MemorySnapshot,
    node_address: u64,
    depth: nat,
    inherited: Option<(i32, i32)>,
) -> Seq<u64> {
    match crate::python_memory_reader::spec_read(mem, node_address as int, 0x30) {
        Err(_) => Seq::empty(),
        Ok(hdr) => match crate::ui_tree_node_extractor::spec_process_entries(
            mem,
            match crate::python_memory_reader::spec_dict_entries(
                mem,
                crate::python_memory_reader::spec_word(hdr, 2),
            ) {
                Ok(entries) => entries,
                Err(_) => Seq::empty(),
            },
        ) {
            Err(_) => Seq::empty(),
            Ok(processed) => match crate::ui_tree_node_extractor::spec_children_addresses(
                mem,
                processed.entries,
            ) {
                Err(_) => Seq::empty(),
                Ok(addrs) => addrs,
            },
        },
    }
}

/// Every region-bearing child a walk produces satisfies the offset rule
/// against the origin the walk was given.
pub proof fn lemma_children_offset(
    mem: MemorySnapshot,
    addrs: Seq<u64>,
    depth: nat,
    origin_x: i32,
    origin_y: i32,
)
    ensures
        spec_children_consistent(
            spec_process_children(mem, addrs, depth, origin_x, origin_y).with_region,
            origin_x,
            origin_y,
        ),
    decreases depth, 2int, addrs.len(),
{
    if addrs.len() > 0 {
        lemma_children_offset(mem, addrs.drop_last(), depth, origin_x, origin_y);
        match spec_read_ui_tree(mem, addrs.last(), depth, Some((origin_x, origin_y))) {
            Ok((child, _)) => {
                lemma_total_region_offset(mem, addrs.last(), depth, Some((origin_x, origin_y)));
                let prev = spec_process_children(
                    mem,
                    addrs.drop_last(),
                    depth,
                    origin_x,
                    origin_y,
                );
                if spec_display_region_from_entries(child.ui_node.dict_entries_of_interest)
                    is Some {
                    assert(prev.with_region.push(child).drop_last() =~= prev.with_region);
                }
            },
            Err(_) => {},
        }
    }
}

/// Whether a node carries all four `_display*` properties of its own.
pub open spec fn spec_has_own_region(n: NodeView) -> bool {
    spec_display_region_from_entries(n.dict_entries_of_interest) is Some
}

/// The region-bearing nodes among a forest, in order.
pub open spec fn spec_filter_with_region(s: Seq<NodeView>) -> Seq<NodeView>
    decreases s.len(),
{
    if s.len() == 0 {
        Seq::empty()
    } else {
        let rest = spec_filter_with_region(s.drop_last());
        if spec_has_own_region(s.last()) {
            rest.push(s.last())
        } else {
            rest
        }
    }
}

/// The region-free nodes among a forest, in order.
pub open spec fn spec_filter_without_region(s: Seq<NodeView>) -> Seq<NodeView>
    decreases s.len(),
{
    if s.len() == 0 {
        Seq::empty()
    } else {
        let rest = spec_filter_without_region(s.drop_last());
        if !spec_has_own_region(s.last()) {
            rest.push(s.last())
        } else {
            rest
        }
    }
}

/// The underlying nodes of a region-annotated list.
pub open spec fn spec_ui_nodes_of(s: Seq<RegionNodeView>) -> Seq<NodeView> {
    Seq::new(s.len(), |i: int| s[i].ui_node)
}

/// The reconstructed child order is the original `_childrenObjects` order:
/// the region-bearing children are exactly the region-bearing decoded
/// children in original order, and likewise for the region-free ones.
pub proof fn lemma_child_order(
    mem: MemorySnapshot,
    addrs: Seq<u64>,
    depth: nat,
    origin_x: i32,
    origin_y: i32,
)
    ensures
        ({
            let pc = spec_process_children(mem, addrs, depth, origin_x, origin_y);
            &&& spec_ui_nodes_of(pc.with_region) == spec_filter_with_region(pc.nodes)
            &&& pc.without_region == spec_filter_without_region(pc.nodes)
        }),
    decreases addrs.len(),
{
    let pc = spec_process_children(mem, addrs, depth, origin_x, origin_y);
    if addrs.len() == 0 {
        assert(spec_ui_nodes_of(pc.with_region) =~= spec_filter_with_region(pc.nodes));
        assert(pc.without_region =~= spec_filter_without_region(pc.nodes));
    } else {
        lemma_child_order(mem, addrs.drop_last(), depth, origin_x, origin_y);
        let prev = spec_process_children(mem, addrs.drop_last(), depth, origin_x, origin_y);
        match spec_read_ui_tree(mem, addrs.last(), depth, Some((origin_x, origin_y))) {
            Err(_) => {},
            Ok((child, _)) => {
                assert(pc.nodes.drop_last() =~= prev.nodes);
                assert(pc.nodes.last() == child.ui_node);
                if spec_display_region_from_entries(child.ui_node.dict_entries_of_interest)
                    is Some {
                    assert(spec_ui_nodes_of(prev.with_region.push(child))
                        =~= spec_ui_nodes_of(prev.with_region).push(child.ui_node));
                } else {
                }
            },
        }
    }
}


/// The offset rule also holds of the standalone geometry annotation: every
/// region-bearing child of an annotated node has its absolute rectangle
/// equal to its own rectangle translated by its parent's absolute origin,
/// all the way down.
pub proof fn lemma_annotate_offset(n: NodeView, self_region: DisplayRegion, total_region: DisplayRegion)
    ensures
        spec_node_consistent(spec_annotate_node(n, self_region, total_region)),
    decreases n, 1int,
{
    lemma_annotate_children_offset(n.children, total_region.x, total_region.y);
}

/// The forest form of the annotation offset rule.
pub proof fn lemma_annotate_children_offset(s: Seq<NodeView>, origin_x: i32, origin_y: i32)
    ensures
        spec_children_consistent(
            spec_annotate_children(s, origin_x, origin_y).with_region,
            origin_x,
            origin_y,
        ),
    decreases s, 0int,
{
    if s.len() > 0 {
        lemma_annotate_children_offset(s.drop_last(), origin_x, origin_y);
        let prev = spec_annotate_children(s.drop_last(), origin_x, origin_y);
        match spec_display_region_from_entries(s.last().dict_entries_of_interest) {
            Some(child_self) => {
                let child_total = child_self.spec_translated_by(origin_x, origin_y);
                lemma_annotate_offset(s.last(), child_self, child_total);
                let node = spec_annotate_node(s.last(), child_self, child_total);
                assert(prev.with_region.push(node).drop_last() =~= prev.with_region);
            },
            None => {},
        }
    }
}

} // verus!
