//! Zones of interest: classification of nodes into named UI panels purely by
//! runtime type name, accumulated once per extraction pass.

use vstd::prelude::*;
use crate::ui_tree_node::UITreeNodeWithDisplayRegion;
use crate::ui_tree_node::RegionNodeView;
use crate::ui_tree_node::view_of_region_node;
use crate::ui_tree_node::clone_region_node;
use crate::values::str_eq;

verus! {

/// The closed set of zone tags.
#[derive(Debug, Clone, Copy, PartialEq, Eq, Structural)]
pub enum UiZonesEnum {
    Overview,
    DirectionalScanner,
    ProbeScanner,
}

/// The per-pass zone map: for each zone tag, the matching nodes in the order
/// the walk finished them.
#[derive(Debug)]
pub struct UiZones {
    pub overview: Vec<UITreeNodeWithDisplayRegion>,
    pub directional_scanner: Vec<UITreeNodeWithDisplayRegion>,
    pub probe_scanner: Vec<UITreeNodeWithDisplayRegion>,
}

/// The mathematical content of a zone map.
pub struct ZonesView {
    pub overview: Seq<RegionNodeView>,
    pub directional_scanner: Seq<RegionNodeView>,
    pub probe_scanner: Seq<RegionNodeView>,
}

/// The mathematical content of a zone map.
pub open spec fn view_of_zones(z: UiZones) -> ZonesView {
    ZonesView {
        overview: Seq::new(z.overview@.len(), |i: int| view_of_region_node(z.overview@[i])),
        directional_scanner: Seq::new(
            z.directional_scanner@.len(),
            |i: int| view_of_region_node(z.directional_scanner@[i]),
        ),
        probe_scanner: Seq::new(
            z.probe_scanner@.len(),
            |i: int| view_of_region_node(z.probe_scanner@[i]),
        ),
    }
}

/// The empty zone map.
pub open spec fn spec_zones_empty() -> ZonesView {
    ZonesView {
        overview: Seq::empty(),
        directional_scanner: Seq::empty(),
        probe_scanner: Seq::empty(),
    }
}

/// Two zone maps, concatenated per zone.
pub open spec fn spec_zones_append(a: ZonesView, b: ZonesView) -> ZonesView {
    ZonesView {
        overview: a.overview + b.overview,
        directional_scanner: a.directional_scanner + b.directional_scanner,
        probe_scanner: a.probe_scanner + b.probe_scanner,
    }
}

/// The zone a runtime type name belongs to, if any.
pub open spec fn spec_zone_of(name: Seq<char>) -> Option<UiZonesEnum> {
    if name == "OverView"@ || name == "OverviewWindow"@ || name == "OverviewWindowOld"@ {
        Some(UiZonesEnum::Overview)
    } else if name == "DirectionalScanner"@ {
        Some(UiZonesEnum::DirectionalScanner)
    } else if name == "ProbeScannerWindow"@ {
        Some(UiZonesEnum::ProbeScanner)
    } else {
        None
    }
}

/// A zone map with `n` appended to the zone of `name`, if it has one.
pub open spec fn spec_zones_insert(z: ZonesView, name: Seq<char>, n: RegionNodeView) -> ZonesView {
    match spec_zone_of(name) {
        None => z,
        Some(UiZonesEnum::Overview) => ZonesView { overview: z.overview.push(n), ..z },
        Some(UiZonesEnum::DirectionalScanner) => ZonesView {
            directional_scanner: z.directional_scanner.push(n),
            ..z
        },
        Some(UiZonesEnum::ProbeScanner) => ZonesView { probe_scanner: z.probe_scanner.push(n), ..z },
    }
}

/// The fixed name-to-zone and overview-name tables.
pub struct UiConstants;

impl UiConstants {
    /// The type names that stand for an overview panel.
    pub fn overview_window() -> (r: Vec<&'static str>)
        ensures
            r@.len() == 3,
            r@[0]@ == "OverView"@,
            r@[1]@ == "OverviewWindow"@,
            r@[2]@ == "OverviewWindowOld"@,
    {
        let mut names: Vec<&'static str> = Vec::new();
        names.push("OverView");
        names.push("OverviewWindow");
        names.push("OverviewWindowOld");
        names
    }

    /// An empty zone map, one (empty) bucket per zone.
    pub fn initialize_mapper() -> (r: UiZones)
        ensures
            view_of_zones(r) == spec_zones_empty(),
    {
        let r = UiZones {
            overview: Vec::new(),
            directional_scanner: Vec::new(),
            probe_scanner: Vec::new(),
        };
        proof {
            assert(view_of_zones(r).overview =~= spec_zones_empty().overview);
            assert(view_of_zones(r).directional_scanner =~= spec_zones_empty().directional_scanner);
            assert(view_of_zones(r).probe_scanner =~= spec_zones_empty().probe_scanner);
        }
        r
    }

    /// Appends `node_ref` to the zone its type name belongs to, if any.
    pub fn check_and_insert_inportant_zone(
        important_zones: &mut UiZones,
        type_id: &String,
        node_ref: &UITreeNodeWithDisplayRegion,
    )
        ensures
            view_of_zones(*final(important_zones)) == spec_zones_insert(
                view_of_zones(*old(important_zones)),
                type_id@,
                view_of_region_node(*node_ref),
            ),
    {
        let overview = str_eq(type_id.as_str(), "OverView") || str_eq(
            type_id.as_str(),
            "OverviewWindow",
        ) || str_eq(type_id.as_str(), "OverviewWindowOld");
        if overview {
            important_zones.overview.push(clone_region_node(node_ref));
            proof {
                lemma_zones_push(
                    *old(important_zones),
                    *important_zones,
                    type_id@,
                    view_of_region_node(*node_ref),
                );
            }
        } else if str_eq(type_id.as_str(), "DirectionalScanner") {
            important_zones.directional_scanner.push(clone_region_node(node_ref));
            proof {
                lemma_zones_push(
                    *old(important_zones),
                    *important_zones,
                    type_id@,
                    view_of_region_node(*node_ref),
                );
            }
        } else if str_eq(type_id.as_str(), "ProbeScannerWindow") {
            important_zones.probe_scanner.push(clone_region_node(node_ref));
            proof {
                lemma_zones_push(
                    *old(important_zones),
                    *important_zones,
                    type_id@,
                    view_of_region_node(*node_ref),
                );
            }
        } else {
            proof {
                assert(view_of_zones(*important_zones).overview =~= view_of_zones(
                    *old(important_zones),
                ).overview);
                assert(view_of_zones(*important_zones).directional_scanner =~= view_of_zones(
                    *old(important_zones),
                ).directional_scanner);
                assert(view_of_zones(*important_zones).probe_scanner =~= view_of_zones(
                    *old(important_zones),
                ).probe_scanner);
            }
        }
    }
}

/// Zone concatenation is associative.
pub proof fn lemma_zones_append_assoc(a: ZonesView, b: ZonesView, c: ZonesView)
    ensures
        spec_zones_append(spec_zones_append(a, b), c) == spec_zones_append(
            a,
            spec_zones_append(b, c),
        ),
{
    assert(spec_zones_append(spec_zones_append(a, b), c).overview =~= spec_zones_append(
        a,
        spec_zones_append(b, c),
    ).overview);
    assert(spec_zones_append(spec_zones_append(a, b), c).directional_scanner =~= spec_zones_append(
        a,
        spec_zones_append(b, c),
    ).directional_scanner);
    assert(spec_zones_append(spec_zones_append(a, b), c).probe_scanner =~= spec_zones_append(
        a,
        spec_zones_append(b, c),
    ).probe_scanner);
}

/// The empty zone map is the identity of concatenation.
pub proof fn lemma_zones_append_empty(a: ZonesView)
    ensures
        spec_zones_append(a, spec_zones_empty()) == a,
        spec_zones_append(spec_zones_empty(), a) == a,
{
    assert(spec_zones_append(a, spec_zones_empty()).overview =~= a.overview);
    assert(spec_zones_append(a, spec_zones_empty()).directional_scanner =~= a.directional_scanner);
    assert(spec_zones_append(a, spec_zones_empty()).probe_scanner =~= a.probe_scanner);
    assert(spec_zones_append(spec_zones_empty(), a).overview =~= a.overview);
    assert(spec_zones_append(spec_zones_empty(), a).directional_scanner =~= a.directional_scanner);
    assert(spec_zones_append(spec_zones_empty(), a).probe_scanner =~= a.probe_scanner);
}

/// Appending one zoned node equals the insert of that node.
pub proof fn lemma_zones_append_insert(a: ZonesView, b: ZonesView, name: Seq<char>, n: RegionNodeView)
    ensures
        spec_zones_append(a, spec_zones_insert(b, name, n)) == spec_zones_insert(
            spec_zones_append(a, b),
            name,
            n,
        ),
{
    assert(spec_zones_append(a, spec_zones_insert(b, name, n)).overview =~= spec_zones_insert(
        spec_zones_append(a, b),
        name,
        n,
    ).overview);
    assert(spec_zones_append(a, spec_zones_insert(b, name, n)).directional_scanner
        =~= spec_zones_insert(spec_zones_append(a, b), name, n).directional_scanner);
    assert(spec_zones_append(a, spec_zones_insert(b, name, n)).probe_scanner =~= spec_zones_insert(
        spec_zones_append(a, b),
        name,
        n,
    ).probe_scanner);
}

/// Pushing a cloned node onto the bucket its name selects matches the ghost
/// insert, provided exactly that bucket grew by that node's view.
proof fn lemma_zones_push(before: UiZones, after: UiZones, name: Seq<char>, n: RegionNodeView)
    requires
        spec_zone_of(name) is Some,
        match spec_zone_of(name) {
            Some(UiZonesEnum::Overview) => {
                &&& after.overview@.len() == before.overview@.len() + 1
                &&& forall|i: int|
                    0 <= i < before.overview@.len() ==> #[trigger] after.overview@[i]
                        == before.overview@[i]
                &&& view_of_region_node(after.overview@.last()) == n
                &&& after.directional_scanner@ == before.directional_scanner@
                &&& after.probe_scanner@ == before.probe_scanner@
            },
            Some(UiZonesEnum::DirectionalScanner) => {
                &&& after.directional_scanner@.len() == before.directional_scanner@.len() + 1
                &&& forall|i: int|
                    0 <= i < before.directional_scanner@.len()
                        ==> #[trigger] after.directional_scanner@[i]
                        == before.directional_scanner@[i]
                &&& view_of_region_node(after.directional_scanner@.last()) == n
                &&& after.overview@ == before.overview@
                &&& after.probe_scanner@ == before.probe_scanner@
            },
            Some(UiZonesEnum::ProbeScanner) => {
                &&& after.probe_scanner@.len() == before.probe_scanner@.len() + 1
                &&& forall|i: int|
                    0 <= i < before.probe_scanner@.len() ==> #[trigger] after.probe_scanner@[i]
                        == before.probe_scanner@[i]
                &&& view_of_region_node(after.probe_scanner@.last()) == n
                &&& after.overview@ == before.overview@
                &&& after.directional_scanner@ == before.directional_scanner@
            },
            None => false,
        },
    ensures
        view_of_zones(after) == spec_zones_insert(view_of_zones(before), name, n),
{
    assert(view_of_zones(after).overview =~= spec_zones_insert(
        view_of_zones(before),
        name,
        n,
    ).overview);
    assert(view_of_zones(after).directional_scanner =~= spec_zones_insert(
        view_of_zones(before),
        name,
        n,
    ).directional_scanner);
    assert(view_of_zones(after).probe_scanner =~= spec_zones_insert(
        view_of_zones(before),
        name,
        n,
    ).probe_scanner);
}

} // verus!
