//! The combined per-pass parse of every recognized panel.

use vstd::prelude::*;
use crate::ui_constants::UiZones;
use crate::ui_constants::ZonesView;
use crate::ui_constants::view_of_zones;
use crate::overview_window::OverviewWindow;
use crate::overview_window::OverviewLabels;
use crate::overview_window::view_of_labels;
use crate::overview_window::spec_overview_fields_ok;
use crate::directional_scanner::DirectionalScanner;
use crate::directional_scanner::spec_directional_fields_ok;
use crate::probe_scanner::ProbeScanner;
use crate::probe_scanner::spec_probe_fields_ok;

verus! {

/// Every panel parsed from one extraction pass's zone map.
#[derive(Debug)]
pub struct GeneralWindow {
    pub overview_windows: Vec<OverviewWindow>,
    pub directional_scanner: Option<DirectionalScanner>,
    pub probe_scanner: Option<ProbeScanner>,
}

/// What a combined parse holds against the zone map it came from.
pub open spec fn spec_general_window_ok(
    r: GeneralWindow,
    zones: ZonesView,
    labels: crate::overview_window::LabelsView,
) -> bool {
    &&& r.overview_windows@.len() == zones.overview.len()
    &&& forall|i: int|
        0 <= i < r.overview_windows@.len() ==> spec_overview_fields_ok(
            #[trigger] r.overview_windows@[i],
            zones.overview[i],
            labels,
        )
    &&& (if zones.directional_scanner.len() == 0 {
        r.directional_scanner is None
    } else {
        r.directional_scanner matches Some(scanner) && spec_directional_fields_ok(
            scanner,
            zones.directional_scanner[0],
        )
    })
    &&& (if zones.probe_scanner.len() == 0 {
        r.probe_scanner is None
    } else {
        r.probe_scanner matches Some(scanner) && spec_probe_fields_ok(
            scanner,
            zones.probe_scanner[0],
        )
    })
}

impl GeneralWindow {
    /// Parses every recognized panel out of a pass's zone map.
    pub fn parse_general_window(defined_zones: &UiZones, labels: &OverviewLabels) -> (r:
        GeneralWindow)
        ensures
            spec_general_window_ok(r, view_of_zones(*defined_zones), view_of_labels(*labels)),
    {
        GeneralWindow {
            overview_windows: OverviewWindow::parse_overview_windows(defined_zones, labels),
            directional_scanner: DirectionalScanner::parse_directional_scanner(defined_zones),
            probe_scanner: ProbeScanner::parse_probe_scanner(defined_zones),
        }
    }
}

} // verus!
