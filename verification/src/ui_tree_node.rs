//! The decoded scene-graph tree.

use vstd::prelude::*;
use crate::values::DictEntry;
use crate::values::EntryView;
use crate::values::view_of_entries;
use crate::values::clone_dict_entries;
use crate::display_region::DisplayRegion;

verus! {

/// One decoded scene-graph object: its address (the node's identity), its
/// runtime type name, the allow-listed properties that decoded, the names of
/// the other properties seen, and the decoded children in their original
/// `_childrenObjects` order.
#[derive(Debug)]
pub struct UiTreeNode {
    pub object_address: u64,
    pub object_type_name: String,
    pub dict_entries_of_interest: Vec<DictEntry>,
    pub other_dict_entries_keys: Vec<String>,
    pub children: Vec<UiTreeNode>,
}

/// The mathematical content of a [`UiTreeNode`].
pub struct NodeView {
    pub object_address: u64,
    pub object_type_name: Seq<char>,
    pub dict_entries_of_interest: Seq<EntryView>,
    pub other_dict_entries_keys: Seq<Seq<char>>,
    pub children: Seq<NodeView>,
}

/// The texts held by a list of strings.
pub open spec fn view_of_strings(s: Seq<String>) -> Seq<Seq<char>> {
    Seq::new(s.len(), |i: int| s[i]@)
}

/// The mathematical content of a node and its whole subtree.
pub open spec fn view_of_node(n: UiTreeNode) -> NodeView
    decreases n,
{
    NodeView {
        object_address: n.object_address,
        object_type_name: n.object_type_name@,
        dict_entries_of_interest: view_of_entries(n.dict_entries_of_interest@),
        other_dict_entries_keys: view_of_strings(n.other_dict_entries_keys@),
        children: view_of_nodes(n.children@),
    }
}

/// The mathematical content of a node list.
pub open spec fn view_of_nodes(s: Seq<UiTreeNode>) -> Seq<NodeView>
    decreases s,
{
    Seq::new(
        s.len(),
        |i: int|
            if 0 <= i < s.len() {
                view_of_node(s[i])
            } else {
                NodeView {
                    object_address: 0,
                    object_type_name: Seq::empty(),
                    dict_entries_of_interest: Seq::empty(),
                    other_dict_entries_keys: Seq::empty(),
                    children: Seq::empty(),
                }
            },
    )
}

impl UiTreeNode {
    pub fn new(
        object_address: u64,
        object_type_name: String,
        dict_entries_of_interest: Vec<DictEntry>,
        other_dict_entries_keys: Vec<String>,
        children: Vec<UiTreeNode>,
    ) -> (r: UiTreeNode)
        ensures
            r == (UiTreeNode {
                object_address,
                object_type_name,
                dict_entries_of_interest,
                other_dict_entries_keys,
                children,
            }),
    {
        UiTreeNode {
            object_address,
            object_type_name,
            dict_entries_of_interest,
            other_dict_entries_keys,
            children,
        }
    }
}

/// A [`UiTreeNode`] decorated with geometry: its own rectangle, its absolute
/// rectangle, its children split by whether they carry geometry, and the
/// sibling-occlusion annotation.
#[derive(Debug)]
pub struct UITreeNodeWithDisplayRegion {
    pub ui_node: UiTreeNode,
    pub child_with_region: Vec<ChildWithRegion>,
    pub child_without_region: Vec<ChildWithoutRegion>,
    pub self_display_region: DisplayRegion,
    pub total_display_region: DisplayRegion,
    pub total_display_region_visible: DisplayRegion,
    /// The absolute regions of those region-bearing children that follow an
    /// occluding sibling in the original child order.
    pub occluded_regions: Vec<DisplayRegion>,
}

/// A child that carries geometry.
#[derive(Debug)]
pub struct ChildWithRegion {
    pub node: UITreeNodeWithDisplayRegion,
}

/// A child that carries no geometry: it contributes descendants but neither
/// geometry nor occlusion.
#[derive(Debug)]
pub struct ChildWithoutRegion {
    pub node: UiTreeNode,
}

/// A scrollable node and, when present, its scroll handle.
#[derive(Debug)]
pub struct ScrollControls {
    pub ui_node: UITreeNodeWithDisplayRegion,
    pub scroll_handle: Option<UITreeNodeWithDisplayRegion>,
}

/// The mathematical content of a [`UITreeNodeWithDisplayRegion`].
pub struct RegionNodeView {
    pub ui_node: NodeView,
    pub child_with_region: Seq<RegionNodeView>,
    pub child_without_region: Seq<NodeView>,
    pub self_display_region: DisplayRegion,
    pub total_display_region: DisplayRegion,
    pub total_display_region_visible: DisplayRegion,
    pub occluded_regions: Seq<DisplayRegion>,
}

/// The mathematical content of a region-annotated node and its subtree.
pub open spec fn view_of_region_node(n: UITreeNodeWithDisplayRegion) -> RegionNodeView
    decreases n,
{
    RegionNodeView {
        ui_node: view_of_node(n.ui_node),
        child_with_region: view_of_region_children(n.child_with_region@),
        child_without_region: view_of_nodes_of_children(n.child_without_region@),
        self_display_region: n.self_display_region,
        total_display_region: n.total_display_region,
        total_display_region_visible: n.total_display_region_visible,
        occluded_regions: n.occluded_regions@,
    }
}

/// The mathematical content of a region-bearing child list.
pub open spec fn view_of_region_children(s: Seq<ChildWithRegion>) -> Seq<RegionNodeView>
    decreases s,
{
    Seq::new(
        s.len(),
        |i: int|
            if 0 <= i < s.len() {
                view_of_region_node(s[i].node)
            } else {
                RegionNodeView {
                    ui_node: view_of_node(
                        UiTreeNode {
                            object_address: 0,
                            object_type_name: arbitrary(),
                            dict_entries_of_interest: arbitrary(),
                            other_dict_entries_keys: arbitrary(),
                            children: arbitrary(),
                        },
                    ),
                    child_with_region: Seq::empty(),
                    child_without_region: Seq::empty(),
                    self_display_region: arbitrary(),
                    total_display_region: arbitrary(),
                    total_display_region_visible: arbitrary(),
                    occluded_regions: Seq::empty(),
                }
            },
    )
}

/// The mathematical content of a region-free child list.
pub open spec fn view_of_nodes_of_children(s: Seq<ChildWithoutRegion>) -> Seq<NodeView> {
    Seq::new(
        s.len(),
        |i: int|
            if 0 <= i < s.len() {
                view_of_node(s[i].node)
            } else {
                view_of_node(
                    UiTreeNode {
                        object_address: 0,
                        object_type_name: arbitrary(),
                        dict_entries_of_interest: arbitrary(),
                        other_dict_entries_keys: arbitrary(),
                        children: arbitrary(),
                    },
                )
            },
    )
}


/// Either kind of child produced when a raw node is annotated with
/// geometry.
#[derive(Debug)]
pub enum ChildOfNode {
    WithRegion(ChildWithRegion),
    WithoutRegion(ChildWithoutRegion),
}

/// What every annotated child answers: whether it carries geometry.
pub trait ChildOfNodeWithDisplayRegion {
    fn has_region(&self) -> bool;
}

impl ChildOfNodeWithDisplayRegion for ChildWithRegion {
    fn has_region(&self) -> (r: bool)
        ensures
            r,
    {
        true
    }
}

impl ChildOfNodeWithDisplayRegion for ChildWithoutRegion {
    fn has_region(&self) -> (r: bool)
        ensures
            !r,
    {
        false
    }
}


/// Inserts a text into a list sorted lexicographically, after every text
/// that sorts no later (a stable insertion).
pub open spec fn spec_sorted_insert_text(s: Seq<Seq<char>>, t: Seq<char>) -> Seq<Seq<char>>
    decreases s.len(),
{
    if s.len() == 0 {
        seq![t]
    } else if !crate::text::spec_text_le(s[0], t) {
        seq![t] + s
    } else {
        seq![s[0]] + spec_sorted_insert_text(s.drop_first(), t)
    }
}

/// The insertion sort of texts in lexicographic order.
pub open spec fn spec_sort_texts(s: Seq<Seq<char>>) -> Seq<Seq<char>>
    decreases s.len(),
{
    if s.len() == 0 {
        Seq::empty()
    } else {
        spec_sorted_insert_text(spec_sort_texts(s.drop_last()), s.last())
    }
}

/// Inserting at the first index whose text sorts later realizes the sorted
/// insertion.
proof fn lemma_sorted_insert_text_at(s: Seq<Seq<char>>, t: Seq<char>, idx: int)
    requires
        0 <= idx <= s.len(),
        forall|k: int| 0 <= k < idx ==> crate::text::spec_text_le(#[trigger] s[k], t),
        idx < s.len() ==> !crate::text::spec_text_le(s[idx], t),
    ensures
        spec_sorted_insert_text(s, t) == s.insert(idx, t),
    decreases idx,
{
    if s.len() == 0 {
        assert(spec_sorted_insert_text(s, t) =~= s.insert(0, t));
    } else if idx == 0 {
        assert(spec_sorted_insert_text(s, t) =~= s.insert(0, t));
    } else {
        lemma_sorted_insert_text_at(s.drop_first(), t, idx - 1);
        assert(s.drop_first().insert(idx - 1, t) =~= s.insert(idx, t).drop_first());
        assert(spec_sorted_insert_text(s, t) =~= seq![s[0]] + s.drop_first().insert(idx - 1, t));
        assert(spec_sorted_insert_text(s, t) =~= s.insert(idx, t));
    }
}

impl UiTreeNode {
    /// The distinct runtime type names of this node and its descendants,
    /// sorted lexicographically by character code point.
    pub fn extract_types(&self) -> (r: Vec<String>)
        ensures
            view_of_strings(r@) == spec_sort_texts(
                spec_seen_types(
                    seq![view_of_node(*self)] + spec_descendants(view_of_node(*self)),
                    Seq::empty(),
                ),
            ),
    {
        let all = self.enumerate_self_and_descendants();
        let mut distinct: Vec<String> = Vec::new();
        let n = all.len();
        let ghost nodes = view_of_nodes(all@);
        proof {
            assert(nodes.subrange(0, 0) =~= Seq::<NodeView>::empty());
            assert(view_of_strings(distinct@) =~= Seq::<Seq<char>>::empty());
            assert(seq![view_of_node(*self)] + spec_descendants(view_of_node(*self)) == nodes);
        }
        let mut i: usize = 0;
        while i < n
            invariant
                n == all@.len(),
                nodes == view_of_nodes(all@),
                nodes.len() == n,
                0 <= i <= n,
                view_of_strings(distinct@) == spec_seen_types(
                    nodes.subrange(0, i as int),
                    Seq::empty(),
                ),
            decreases n - i,
        {
            proof {
                assert(nodes.subrange(0, i + 1).drop_last() =~= nodes.subrange(0, i as int));
                assert(nodes.subrange(0, i + 1).last() == view_of_node(all@[i as int]));
            }
            let name = &all[i].object_type_name;
            if !vec_contains_string(&distinct, name.as_str()) {
                let ghost before = view_of_strings(distinct@);
                distinct.push(name.clone());
                proof {
                    assert(view_of_strings(distinct@) =~= before.push(distinct@.last()@));
                }
            }
            i = i + 1;
        }
        proof {
            assert(nodes.subrange(0, n as int) =~= nodes);
        }
        // Sort the distinct names.
        let mut sorted: Vec<String> = Vec::new();
        let count = distinct.len();
        let ghost names = view_of_strings(distinct@);
        proof {
            assert(names.subrange(0, 0) =~= Seq::<Seq<char>>::empty());
            assert(view_of_strings(sorted@) =~= spec_sort_texts(names.subrange(0, 0)));
        }
        let mut j: usize = 0;
        while j < count
            invariant
                count == distinct@.len(),
                names == view_of_strings(distinct@),
                names.len() == count,
                0 <= j <= count,
                view_of_strings(sorted@) == spec_sort_texts(names.subrange(0, j as int)),
            decreases count - j,
        {
            proof {
                assert(names.subrange(0, j + 1).drop_last() =~= names.subrange(0, j as int));
                assert(names.subrange(0, j + 1).last() == names[j as int]);
            }
            let item = &distinct[j];
            let item_chars = crate::text::chars_of(item.as_str());
            let ghost sorted_before = view_of_strings(sorted@);
            let m = sorted.len();
            let mut idx: usize = 0;
            let mut keep_scanning = true;
            while idx < m && keep_scanning
                invariant
                    m == sorted@.len(),
                    sorted_before == view_of_strings(sorted@),
                    sorted_before.len() == m,
                    item_chars@ == names[j as int],
                    0 <= idx <= m,
                    forall|k: int|
                        0 <= k < idx ==> crate::text::spec_text_le(
                            #[trigger] sorted_before[k],
                            names[j as int],
                        ),
                    keep_scanning || (idx < m && !crate::text::spec_text_le(
                        sorted_before[idx as int],
                        names[j as int],
                    )),
                decreases m - idx + (if keep_scanning { 1int } else { 0int }),
            {
                let existing = crate::text::chars_of(sorted[idx].as_str());
                if crate::text::text_le(&existing, &item_chars) {
                    idx = idx + 1;
                } else {
                    keep_scanning = false;
                }
            }
            let ghost g_idx = idx as int;
            sorted.insert(idx, item.clone());
            proof {
                assert(view_of_strings(sorted@) =~= sorted_before.insert(
                    g_idx,
                    names[j as int],
                ));
                lemma_sorted_insert_text_at(sorted_before, names[j as int], g_idx);
            }
            j = j + 1;
        }
        proof {
            assert(names.subrange(0, count as int) =~= names);
        }
        sorted
    }
}

/// The distinct type names among a flat node list, in order, continuing
/// from the names seen so far but ignoring the nodes' own subtrees (used
/// for already-flattened lists).
pub open spec fn spec_seen_types(s: Seq<NodeView>, seen: Seq<Seq<char>>) -> Seq<Seq<char>>
    decreases s.len(),
{
    if s.len() == 0 {
        seen
    } else {
        let rest = spec_seen_types(s.drop_last(), seen);
        if rest.contains(s.last().object_type_name) {
            rest
        } else {
            rest.push(s.last().object_type_name)
        }
    }
}

/// Whether the vector holds a string with the given text.
fn vec_contains_string(strings: &Vec<String>, needle: &str) -> (r: bool)
    ensures
        r == view_of_strings(strings@).contains(needle@),
{
    let n = strings.len();
    let mut i: usize = 0;
    while i < n
        invariant
            n == strings@.len(),
            0 <= i <= n,
            forall|k: int| 0 <= k < i ==> view_of_strings(strings@)[k] != needle@,
        decreases n - i,
    {
        if crate::values::str_eq(strings[i].as_str(), needle) {
            proof {
                assert(view_of_strings(strings@)[i as int] == needle@);
            }
            return true;
        }
        i = i + 1;
    }
    proof {
        if view_of_strings(strings@).contains(needle@) {
            let k = choose|k: int|
                0 <= k < view_of_strings(strings@).len() && view_of_strings(strings@)[k]
                    == needle@;
        }
    }
    false
}

/// Structurally equal copy of a region-annotated node and its subtree.
pub fn clone_region_node(node: &UITreeNodeWithDisplayRegion) -> (r: UITreeNodeWithDisplayRegion)
    ensures
        view_of_region_node(r) == view_of_region_node(*node),
    decreases *node,
{
    let ui_node = clone_ui_tree_node(&node.ui_node);
    let mut child_with_region: Vec<ChildWithRegion> = Vec::new();
    let n_with = node.child_with_region.len();
    let mut i: usize = 0;
    while i < n_with
        invariant
            n_with == node.child_with_region@.len(),
            0 <= i <= n_with,
            child_with_region@.len() == i,
            forall|k: int|
                0 <= k < i ==> #[trigger] view_of_region_node(child_with_region@[k].node)
                    == view_of_region_node(node.child_with_region@[k].node),
        decreases n_with - i,
    {
        proof {
            assert(decreases_to!(*node => node.child_with_region@[i as int]));
        }
        let copy = clone_region_node(&node.child_with_region[i].node);
        child_with_region.push(ChildWithRegion { node: copy });
        i = i + 1;
    }
    let mut child_without_region: Vec<ChildWithoutRegion> = Vec::new();
    let n_without = node.child_without_region.len();
    let mut j: usize = 0;
    while j < n_without
        invariant
            n_without == node.child_without_region@.len(),
            0 <= j <= n_without,
            child_without_region@.len() == j,
            forall|k: int|
                0 <= k < j ==> #[trigger] view_of_node(child_without_region@[k].node)
                    == view_of_node(node.child_without_region@[k].node),
        decreases n_without - j,
    {
        let copied = clone_ui_tree_node(&node.child_without_region[j].node);
        proof {
            assert(view_of_node(copied) == view_of_node(node.child_without_region@[j as int].node));
        }
        let ghost before = child_without_region@;
        child_without_region.push(ChildWithoutRegion { node: copied });
        proof {
            assert forall|k: int|
                0 <= k < j + 1 implies #[trigger] view_of_node(child_without_region@[k].node)
                == view_of_node(node.child_without_region@[k].node) by {
                if k < j {
                    assert(child_without_region@[k] == before[k]);
                    assert(view_of_node(before[k].node) == view_of_node(
                        node.child_without_region@[k].node,
                    ));
                } else {
                    assert(child_without_region@[k] == child_without_region@.last());
                }
            }
        }
        j = j + 1;
    }
    let mut occluded_regions: Vec<DisplayRegion> = Vec::new();
    let n_occ = node.occluded_regions.len();
    let mut k: usize = 0;
    while k < n_occ
        invariant
            n_occ == node.occluded_regions@.len(),
            0 <= k <= n_occ,
            occluded_regions@.len() == k,
            forall|m: int| 0 <= m < k ==> #[trigger] occluded_regions@[m] == node.occluded_regions@[m],
        decreases n_occ - k,
    {
        occluded_regions.push(node.occluded_regions[k]);
        k = k + 1;
    }
    let out = UITreeNodeWithDisplayRegion {
        ui_node,
        child_with_region,
        child_without_region,
        self_display_region: node.self_display_region,
        total_display_region: node.total_display_region,
        total_display_region_visible: node.total_display_region_visible,
        occluded_regions,
    };
    proof {
        let a = view_of_region_children(out.child_with_region@);
        let b = view_of_region_children(node.child_with_region@);
        assert(a.len() == b.len());
        assert forall|m: int| 0 <= m < a.len() implies a[m] == b[m] by {
            assert(a[m] == view_of_region_node(out.child_with_region@[m].node));
            assert(b[m] == view_of_region_node(node.child_with_region@[m].node));
        }
        assert(a =~= b);
        let c = view_of_nodes_of_children(out.child_without_region@);
        let d = view_of_nodes_of_children(node.child_without_region@);
        assert(c.len() == d.len());
        assert forall|m: int| 0 <= m < c.len() implies c[m] == d[m] by {
            assert(c[m] == view_of_node(out.child_without_region@[m].node));
            assert(d[m] == view_of_node(node.child_without_region@[m].node));
        }
        assert(c =~= d);
        assert(out.occluded_regions@ =~= node.occluded_regions@);
    }
    out
}


/// The number of nodes in the subtree rooted at `n`, the root included.
pub open spec fn spec_count_nodes(n: NodeView) -> nat
    decreases n,
{
    (1 + spec_count_nodes_list(n.children)) as nat
}

/// The number of nodes in a forest.
pub open spec fn spec_count_nodes_list(s: Seq<NodeView>) -> nat
    decreases s,
{
    if s.len() == 0 {
        0
    } else {
        (spec_count_nodes_list(s.drop_last()) + spec_count_nodes(s.last())) as nat
    }
}

/// `v` collapsed into the range of `usize`.
pub open spec fn spec_saturate_usize(v: int) -> int {
    if v > usize::MAX {
        usize::MAX as int
    } else {
        v
    }
}

/// The descendants of `n` in depth-first order, each child followed by its
/// own descendants.
pub open spec fn spec_descendants(n: NodeView) -> Seq<NodeView>
    decreases n, 1int,
{
    spec_descendants_list(n.children)
}

/// The depth-first descendants of a forest.
pub open spec fn spec_descendants_list(s: Seq<NodeView>) -> Seq<NodeView>
    decreases s, 0int,
{
    if s.len() == 0 {
        Seq::empty()
    } else {
        spec_descendants_list(s.drop_last()) + seq![s.last()] + spec_descendants(s.last())
    }
}

/// The display text of a node: the longer of its `_setText` and `_text`
/// string properties, the former winning ties, the empty text when neither
/// is a non-empty string.
pub open spec fn spec_display_text(n: NodeView) -> Seq<char> {
    let after_set_text = spec_longer_candidate(n, "_setText"@, Seq::empty());
    spec_longer_candidate(n, "_text"@, after_set_text)
}

/// The text under `key`, when it is a string strictly longer than the
/// candidate so far; else the candidate.
pub open spec fn spec_longer_candidate(n: NodeView, key: Seq<char>, so_far: Seq<char>) -> Seq<
    char,
> {
    if crate::values::spec_entries_has_key(n.dict_entries_of_interest, key) {
        match crate::values::spec_entries_lookup(n.dict_entries_of_interest, key) {
            crate::values::ValueView::Str(s) => if s.len() > so_far.len() {
                s
            } else {
                so_far
            },
            _ => so_far,
        }
    } else {
        so_far
    }
}

impl UiTreeNode {
    /// The size of this node's subtree, itself included, saturated at the
    /// bound of `usize`.
    pub fn count_descendants(&self) -> (r: usize)
        ensures
            r as int == spec_saturate_usize(spec_count_nodes(view_of_node(*self)) as int),
        decreases *self,
    {
        let mut count: usize = 1;
        let n = self.children.len();
        let mut i: usize = 0;
        while i < n
            invariant
                n == self.children@.len(),
                0 <= i <= n,
                count as int == spec_saturate_usize(
                    1 + spec_count_nodes_list(
                        view_of_nodes(self.children@).subrange(0, i as int),
                    ) as int,
                ),
            decreases n - i,
        {
            proof {
                assert(decreases_to!(*self => self.children@[i as int]));
                assert(view_of_nodes(self.children@).subrange(0, i + 1).drop_last()
                    =~= view_of_nodes(self.children@).subrange(0, i as int));
                assert(view_of_nodes(self.children@).subrange(0, i + 1).last() == view_of_node(
                    self.children@[i as int],
                ));
            }
            let child_count = self.children[i].count_descendants();
            count = count.saturating_add(child_count);
            i = i + 1;
        }
        proof {
            assert(view_of_nodes(self.children@).subrange(0, n as int) =~= view_of_nodes(
                self.children@,
            ));
        }
        count
    }

    /// The node's display text; see [`spec_display_text`].
    pub fn get_display_text(ui_node: &UiTreeNode) -> (r: String)
        ensures
            r@ == spec_display_text(view_of_node(*ui_node)),
    {
        let mut longest_text = String::new();
        match crate::values::dict_entries_find(&ui_node.dict_entries_of_interest, "_setText") {
            Some(value) => match value {
                crate::values::DecodedValue::Str(s) => {
                    if s.as_str().unicode_len() > longest_text.as_str().unicode_len() {
                        longest_text = s.clone();
                    }
                },
                _ => {},
            },
            None => {},
        }
        match crate::values::dict_entries_find(&ui_node.dict_entries_of_interest, "_text") {
            Some(value) => match value {
                crate::values::DecodedValue::Str(s) => {
                    if s.as_str().unicode_len() > longest_text.as_str().unicode_len() {
                        longest_text = s.clone();
                    }
                },
                _ => {},
            },
            None => {},
        }
        longest_text
    }

    /// The descendants of `parent` in depth-first order, as copies.
    pub fn list_descendants_in_ui_tree_node(parent: &UiTreeNode) -> (r: Vec<UiTreeNode>)
        ensures
            view_of_nodes(r@) == spec_descendants(view_of_node(*parent)),
        decreases *parent,
    {
        let mut descendants: Vec<UiTreeNode> = Vec::new();
        let n = parent.children.len();
        let mut i: usize = 0;
        proof {
            assert(view_of_nodes(descendants@) =~= spec_descendants_list(
                view_of_nodes(parent.children@).subrange(0, 0),
            ));
        }
        while i < n
            invariant
                n == parent.children@.len(),
                0 <= i <= n,
                view_of_nodes(descendants@) == spec_descendants_list(
                    view_of_nodes(parent.children@).subrange(0, i as int),
                ),
            decreases n - i,
        {
            proof {
                assert(decreases_to!(*parent => parent.children@[i as int]));
                assert(view_of_nodes(parent.children@).subrange(0, i + 1).drop_last()
                    =~= view_of_nodes(parent.children@).subrange(0, i as int));
                assert(view_of_nodes(parent.children@).subrange(0, i + 1).last() == view_of_node(
                    parent.children@[i as int],
                ));
            }
            let child = &parent.children[i];
            descendants.push(clone_ui_tree_node(child));
            let mut child_descendants = UiTreeNode::list_descendants_in_ui_tree_node(child);
            let ghost before = descendants@;
            let ghost added = child_descendants@;
            descendants.append(&mut child_descendants);
            proof {
                assert(descendants@ =~= before + added);
                assert(view_of_nodes(descendants@) =~= view_of_nodes(before) + view_of_nodes(
                    added,
                ));
            }
            i = i + 1;
        }
        proof {
            assert(view_of_nodes(parent.children@).subrange(0, n as int) =~= view_of_nodes(
                parent.children@,
            ));
        }
        descendants
    }

    /// This node followed by its depth-first descendants, as copies.
    pub fn enumerate_self_and_descendants(&self) -> (r: Vec<UiTreeNode>)
        ensures
            view_of_nodes(r@) == seq![view_of_node(*self)] + spec_descendants(view_of_node(*self)),
    {
        let mut result: Vec<UiTreeNode> = Vec::new();
        result.push(clone_ui_tree_node(self));
        let mut descendants = UiTreeNode::list_descendants_in_ui_tree_node(self);
        let ghost before = result@;
        let ghost added = descendants@;
        result.append(&mut descendants);
        proof {
            assert(result@ =~= before + added);
            assert(view_of_nodes(result@) =~= seq![view_of_node(*self)] + spec_descendants(
                view_of_node(*self),
            ));
        }
        result
    }
}

/// Structurally equal copy of a node and its whole subtree.
pub fn clone_ui_tree_node(node: &UiTreeNode) -> (r: UiTreeNode)
    ensures
        view_of_node(r) == view_of_node(*node),
    decreases *node,
{
    proof {
        assert(decreases_to!(*node => node.dict_entries_of_interest));
    }
    let entries = clone_dict_entries(&node.dict_entries_of_interest);
    let mut other_keys: Vec<String> = Vec::new();
    let n_keys = node.other_dict_entries_keys.len();
    let mut i: usize = 0;
    while i < n_keys
        invariant
            n_keys == node.other_dict_entries_keys@.len(),
            0 <= i <= n_keys,
            other_keys@.len() == i,
            forall|k: int|
                0 <= k < i ==> #[trigger] other_keys@[k]@ == node.other_dict_entries_keys@[k]@,
        decreases n_keys - i,
    {
        other_keys.push(node.other_dict_entries_keys[i].clone());
        i = i + 1;
    }
    let mut children: Vec<UiTreeNode> = Vec::new();
    let n_children = node.children.len();
    let mut j: usize = 0;
    while j < n_children
        invariant
            n_children == node.children@.len(),
            0 <= j <= n_children,
            children@.len() == j,
            forall|k: int|
                0 <= k < j ==> #[trigger] view_of_node(children@[k]) == view_of_node(
                    node.children@[k],
                ),
        decreases n_children - j,
    {
        proof {
            assert(decreases_to!(*node => node.children@[j as int]));
        }
        children.push(clone_ui_tree_node(&node.children[j]));
        j = j + 1;
    }
    let out = UiTreeNode {
        object_address: node.object_address,
        object_type_name: node.object_type_name.clone(),
        dict_entries_of_interest: entries,
        other_dict_entries_keys: other_keys,
        children,
    };
    proof {
        let a = view_of_node(out);
        let b = view_of_node(*node);
        assert(a.other_dict_entries_keys =~= b.other_dict_entries_keys);
        let ac = view_of_nodes(out.children@);
        let bc = view_of_nodes(node.children@);
        assert(ac.len() == bc.len());
        assert forall|k: int| 0 <= k < ac.len() implies ac[k] == bc[k] by {
            assert(ac[k] == view_of_node(out.children@[k]));
            assert(bc[k] == view_of_node(node.children@[k]));
        }
        assert(ac =~= bc);
    }
    out
}

} // verus!
