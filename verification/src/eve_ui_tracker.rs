//! The tracking decisions: choosing a root address (stored or freshly
//! scanned), running one extraction-and-parse pass, and keeping the
//! per-process status record. The host drives the loop, performs the
//! persistence and delivers the status events.

use vstd::prelude::*;
use crate::errors::ExtractError;
use crate::memory::MemorySnapshot;
use crate::ui_tree_node_extractor::UiTreeNodeExtractor;
use crate::ui_tree_node_extractor::spec_read_ui_tree;
use crate::ui_tree_node_extractor::spec_depth_of;
use crate::extract_possible_root_address::ExtractPossibleRootAddress;
use crate::extract_possible_root_address::spec_possible_root_addresses;
use crate::ui_tree_node::spec_count_nodes;
use crate::ui_tree_node::spec_saturate_usize;
use crate::overview_window::OverviewLabels;
use crate::overview_window::view_of_labels;
use crate::general_window::GeneralWindow;
use crate::general_window::spec_general_window_ok;

verus! {

/// How many levels deep a tracking pass walks the tree.
pub const TRACKER_MAX_DEPTH: i32 = 99;

/// Whether a tracked process is still being followed.
#[derive(Debug, Clone, Copy, PartialEq, Eq, Structural)]
pub enum EveUiTrackerStatus {
    Running,
    Stopped,
}

/// The per-process tracking record the host publishes.
#[derive(Debug)]
pub struct EveUiStatus {
    pub process_id: u32,
    pub status: EveUiTrackerStatus,
    pub error: Option<String>,
    pub general_window: Option<GeneralWindow>,
    pub ms_processing: u32,
}

/// The tracking records, one per tracked process.
#[derive(Debug)]
pub struct EveUiTracker {
    eve_ui_status: Vec<(u32, EveUiStatus)>,
}

/// The index of the record for `process`, if one exists (keys are unique).
pub open spec fn spec_status_index(s: Seq<(u32, EveUiStatus)>, process: u32) -> int
    decreases s.len(),
{
    if s.len() == 0 {
        0
    } else if s[0].0 == process {
        0
    } else {
        1 + spec_status_index(s.drop_first(), process)
    }
}

/// Whether a record for `process` exists.
pub open spec fn spec_has_status(s: Seq<(u32, EveUiStatus)>, process: u32) -> bool {
    exists|i: int| 0 <= i < s.len() && (#[trigger] s[i]).0 == process
}

/// The record for `process`.
pub open spec fn spec_status_of(s: Seq<(u32, EveUiStatus)>, process: u32) -> EveUiStatus {
    s[spec_status_index(s, process)].1
}

/// No two records share a process id.
pub open spec fn spec_status_keys_unique(s: Seq<(u32, EveUiStatus)>) -> bool {
    forall|i: int, j: int| 0 <= i < j < s.len() ==> (#[trigger] s[i]).0 != (#[trigger] s[j]).0
}

impl EveUiTracker {
    /// The tracking records.
    pub closed spec fn statuses(self) -> Seq<(u32, EveUiStatus)> {
        self.eve_ui_status@
    }

    /// Keys are unique; established by `new` and kept by every method.
    pub closed spec fn wf(self) -> bool {
        spec_status_keys_unique(self.eve_ui_status@)
    }

    pub fn new() -> (r: EveUiTracker)
        ensures
            r.statuses().len() == 0,
            r.wf(),
    {
        EveUiTracker { eve_ui_status: Vec::new() }
    }

    /// Begins tracking `process`: its record starts out running, without
    /// error, window or timing.
    pub fn start_tracker(&mut self, process: u32)
        requires
            old(self).wf(),
        ensures
            final(self).wf(),
            spec_has_status(final(self).statuses(), process),
            ({
                let st = spec_status_of(final(self).statuses(), process);
                &&& st.process_id == process
                &&& st.status == EveUiTrackerStatus::Running
                &&& st.error is None
                &&& st.general_window is None
                &&& st.ms_processing == 0
            }),
    {
        let fresh = EveUiStatus {
            process_id: process,
            status: EveUiTrackerStatus::Running,
            error: None,
            general_window: None,
            ms_processing: 0,
        };
        self.put_status(process, fresh);
    }

    /// Marks the record for `process` as stopped; everything else on the
    /// record is kept.
    pub fn stop_tracker(&mut self, process: u32)
        requires
            old(self).wf(),
            spec_has_status(old(self).statuses(), process),
        ensures
            final(self).wf(),
            spec_has_status(final(self).statuses(), process),
            spec_status_of(final(self).statuses(), process) == (EveUiStatus {
                status: EveUiTrackerStatus::Stopped,
                ..spec_status_of(old(self).statuses(), process)
            }),
    {
        let mut record = self.take_status(process);
        record.status = EveUiTrackerStatus::Stopped;
        self.put_status(process, record);
    }

    /// Records an error on the record for `process`; everything else on the
    /// record is kept.
    pub fn send_error(&mut self, process: u32, error: String)
        requires
            old(self).wf(),
            spec_has_status(old(self).statuses(), process),
        ensures
            final(self).wf(),
            spec_has_status(final(self).statuses(), process),
            spec_status_of(final(self).statuses(), process) == (EveUiStatus {
                error: Some(error),
                ..spec_status_of(old(self).statuses(), process)
            }),
    {
        let mut record = self.take_status(process);
        record.error = Some(error);
        self.put_status(process, record);
    }

    /// Stores the parsed panels on the record for `process`; everything
    /// else on the record is kept.
    pub fn modify_eve_ui_status(&mut self, process: u32, general_window: GeneralWindow)
        requires
            old(self).wf(),
            spec_has_status(old(self).statuses(), process),
        ensures
            final(self).wf(),
            spec_has_status(final(self).statuses(), process),
            spec_status_of(final(self).statuses(), process) == (EveUiStatus {
                general_window: Some(general_window),
                ..spec_status_of(old(self).statuses(), process)
            }),
    {
        let mut record = self.take_status(process);
        record.general_window = Some(general_window);
        self.put_status(process, record);
    }

    /// Records how long the last pass took; everything else on the record
    /// is kept.
    pub fn modify_eve_duration_processing(&mut self, process: u32, ms_processing: u32)
        requires
            old(self).wf(),
            spec_has_status(old(self).statuses(), process),
        ensures
            final(self).wf(),
            spec_has_status(final(self).statuses(), process),
            spec_status_of(final(self).statuses(), process) == (EveUiStatus {
                ms_processing,
                ..spec_status_of(old(self).statuses(), process)
            }),
    {
        let mut record = self.take_status(process);
        record.ms_processing = ms_processing;
        self.put_status(process, record);
    }

    /// Removes and returns the record for `process`.
    fn take_status(&mut self, process: u32) -> (r: EveUiStatus)
        requires
            old(self).wf(),
            spec_has_status(old(self).statuses(), process),
        ensures
            final(self).wf(),
            !spec_has_status(final(self).statuses(), process),
            r == spec_status_of(old(self).statuses(), process),
    {
        let idx = match self.find_status(process) {
            Some(i) => i,
            None => {
                proof {
                    assert(false);
                }
                0
            },
        };
        let (_, record) = self.eve_ui_status.remove(idx);
        proof {
            lemma_status_remove(old(self).statuses(), idx as int);
        }
        record
    }

    /// A copy-free read of the record for `process`, for the host to
    /// publish.
    pub fn get_status<'a>(&'a self, process: u32) -> (r: Option<&'a EveUiStatus>)
        requires
            self.wf(),
        ensures
            spec_has_status(self.statuses(), process) ==> (r matches Some(st) && *st
                == spec_status_of(self.statuses(), process)),
            !spec_has_status(self.statuses(), process) ==> r is None,
    {
        match self.find_status(process) {
            Some(i) => Some(&self.eve_ui_status[i].1),
            None => None,
        }
    }

    /// One tracking pass over a snapshot: decodes the tree under
    /// `ui_tree_address`, parses the panels out of its zone map, and stores
    /// them on the record for `process`. A failure at the root is returned
    /// and the record keeps its previous window.
    pub fn extract_ui_from_process(
        &mut self,
        process: u32,
        memory: &MemorySnapshot,
        ui_tree_address: u64,
        labels: &OverviewLabels,
    ) -> (r: Result<(), ExtractError>)
        requires
            old(self).wf(),
            spec_has_status(old(self).statuses(), process),
        ensures
            final(self).wf(),
            match spec_read_ui_tree(
                *memory,
                ui_tree_address,
                spec_depth_of(TRACKER_MAX_DEPTH),
                None,
            ) {
                Ok((_, zones)) => r is Ok && spec_has_status(final(self).statuses(), process)
                    && (spec_status_of(final(self).statuses(), process).general_window
                    matches Some(gw) && spec_general_window_ok(
                    gw,
                    zones,
                    view_of_labels(*labels),
                )),
                Err(e) => r == Err::<(), ExtractError>(e),
            },
    {
        let mut extractor = UiTreeNodeExtractor::new(memory);
        let (_, zones_with_ui) = match extractor.extract_ui_tree_from_address(
            ui_tree_address,
            TRACKER_MAX_DEPTH,
        ) {
            Ok(pair) => pair,
            Err(e) => {
                return Err(e);
            },
        };
        let general_window = GeneralWindow::parse_general_window(&zones_with_ui, labels);
        self.modify_eve_ui_status(process, general_window);
        Ok(())
    }

    /// The index of the record for `process`, if any.
    fn find_status(&self, process: u32) -> (r: Option<usize>)
        requires
            spec_status_keys_unique(self.statuses()),
        ensures
            spec_has_status(self.statuses(), process) ==> (r matches Some(i)
                && spec_status_index(self.statuses(), process) == i as int && 0 <= i as int
                && (i as int) < self.statuses().len() && self.statuses()[i as int].0 == process),
            !spec_has_status(self.statuses(), process) ==> r is None,
    {
        let n = self.eve_ui_status.len();
        let mut i: usize = 0;
        while i < n
            invariant
                n == self.statuses().len(),
                0 <= i <= n,
                forall|k: int| 0 <= k < i ==> (#[trigger] self.statuses()[k]).0 != process,
            decreases n - i,
        {
            if self.eve_ui_status[i].0 == process {
                proof {
                    lemma_status_index_first(self.statuses(), process, i as int);
                }
                return Some(i);
            }
            i = i + 1;
        }
        proof {
            if spec_has_status(self.statuses(), process) {
                let k = choose|k: int|
                    0 <= k < self.statuses().len() && (#[trigger] self.statuses()[k]).0
                        == process;
            }
        }
        None
    }

    /// Replaces or appends the record for `process`.
    fn put_status(&mut self, process: u32, status: EveUiStatus)
        requires
            old(self).wf(),
        ensures
            final(self).wf(),
            spec_has_status(final(self).statuses(), process),
            spec_status_of(final(self).statuses(), process) == status,
    {
        match self.find_status(process) {
            Some(i) => {
                self.eve_ui_status.remove(i);
                proof {
                    lemma_status_remove(old(self).statuses(), i as int);
                }
            },
            None => {},
        }
        let ghost trimmed = self.eve_ui_status@;
        self.eve_ui_status.push((process, status));
        proof {
            assert(self.eve_ui_status@ =~= trimmed.push((process, status)));
            lemma_status_push(trimmed, process, status);
        }
    }
}

/// Removing an index from a unique-keyed list keeps it unique-keyed and
/// drops that key.
proof fn lemma_status_remove(s: Seq<(u32, EveUiStatus)>, r: int)
    requires
        spec_status_keys_unique(s),
        0 <= r < s.len(),
    ensures
        spec_status_keys_unique(s.remove(r)),
        !spec_has_status(s.remove(r), s[r].0),
{
    let t = s.remove(r);
    assert forall|i: int, j: int| 0 <= i < j < t.len() implies (#[trigger] t[i]).0
        != (#[trigger] t[j]).0 by {
        let si = if i < r {
            i
        } else {
            i + 1
        };
        let sj = if j < r {
            j
        } else {
            j + 1
        };
        assert(t[i] == s[si] && t[j] == s[sj]);
    }
    if spec_has_status(t, s[r].0) {
        let i = choose|i: int| 0 <= i < t.len() && (#[trigger] t[i]).0 == s[r].0;
        let si = if i < r {
            i
        } else {
            i + 1
        };
        assert(t[i] == s[si]);
        assert(false);
    }
}

/// Pushing a fresh key keeps the list unique-keyed and makes its key look
/// up to the pushed record.
proof fn lemma_status_push(s: Seq<(u32, EveUiStatus)>, process: u32, status: EveUiStatus)
    requires
        !spec_has_status(s, process),
        spec_status_keys_unique(s),
    ensures
        spec_status_keys_unique(s.push((process, status))),
        spec_has_status(s.push((process, status)), process),
        spec_status_of(s.push((process, status)), process) == status,
{
    let t = s.push((process, status));
    assert forall|i: int, j: int| 0 <= i < j < t.len() implies (#[trigger] t[i]).0
        != (#[trigger] t[j]).0 by {
        if j < s.len() {
            assert(t[i] == s[i] && t[j] == s[j]);
        } else {
            assert(t[i] == s[i]);
        }
    }
    assert(t[s.len() as int].0 == process);
    lemma_status_index_first(t, process, s.len() as int);
}

/// When the first `i` records miss and record `i` hits, the lookup index is
/// `i`.
proof fn lemma_status_index_first(s: Seq<(u32, EveUiStatus)>, process: u32, i: int)
    requires
        0 <= i < s.len(),
        s[i].0 == process,
        forall|k: int| 0 <= k < i ==> (#[trigger] s[k]).0 != process,
    ensures
        spec_status_index(s, process) == i,
        spec_has_status(s, process),
    decreases i,
{
    if i > 0 {
        lemma_status_index_first(s.drop_first(), process, i - 1);
    }
}

/// The root candidates that decode, each with its saturated subtree size.
pub open spec fn spec_root_candidates(mem: MemorySnapshot, addrs: Seq<u64>) -> Seq<(u64, int)>
    decreases addrs.len(),
{
    if addrs.len() == 0 {
        Seq::empty()
    } else {
        let rest = spec_root_candidates(mem, addrs.drop_last());
        match spec_read_ui_tree(mem, addrs.last(), spec_depth_of(TRACKER_MAX_DEPTH), None) {
            Ok((node, _)) => rest.push(
                (addrs.last(), spec_saturate_usize(spec_count_nodes(node.ui_node) as int)),
            ),
            Err(_) => rest,
        }
    }
}

/// The candidate with the largest subtree, later candidates winning ties.
pub open spec fn spec_best_root(pairs: Seq<(u64, int)>) -> Option<u64>
    decreases pairs.len(),
{
    if pairs.len() == 0 {
        None
    } else {
        match spec_best_root_pair(pairs) {
            Some(p) => Some(p.0),
            None => None,
        }
    }
}

/// The best pair under the same rule.
pub open spec fn spec_best_root_pair(pairs: Seq<(u64, int)>) -> Option<(u64, int)>
    decreases pairs.len(),
{
    if pairs.len() == 0 {
        None
    } else {
        match spec_best_root_pair(pairs.drop_last()) {
            None => Some(pairs.last()),
            Some(best) => if best.1 > pairs.last().1 {
                Some(best)
            } else {
                Some(pairs.last())
            },
        }
    }
}

/// Scans the snapshot for root candidates, decodes a tree under each, and
/// returns the address whose tree has the most nodes (later candidates
/// winning ties); nothing when no candidate decodes.
pub fn get_root_address(memory: &MemorySnapshot) -> (r: Option<u64>)
    ensures
        r == spec_best_root(
            spec_root_candidates(*memory, spec_possible_root_addresses(*memory)),
        ),
{
    let locator = ExtractPossibleRootAddress::new();
    let possible_root_address = match locator.execute(memory) {
        Ok(addresses) => addresses,
        Err(_) => {
            return None;
        },
    };
    let ghost addrs = possible_root_address@;
    let mut best: Option<(u64, usize)> = None;
    let n = possible_root_address.len();
    proof {
        assert(addrs.subrange(0, 0) =~= Seq::<u64>::empty());
    }
    let mut i: usize = 0;
    while i < n
        invariant
            n == possible_root_address@.len(),
            addrs == possible_root_address@,
            0 <= i <= n,
            match best {
                Some(p) => spec_best_root_pair(
                    spec_root_candidates(*memory, addrs.subrange(0, i as int)),
                ) == Some((p.0, p.1 as int)),
                None => spec_root_candidates(*memory, addrs.subrange(0, i as int)).len() == 0,
            },
        decreases n - i,
    {
        proof {
            assert(addrs.subrange(0, i + 1).drop_last() =~= addrs.subrange(0, i as int));
            assert(addrs.subrange(0, i + 1).last() == addrs[i as int]);
        }
        let address = possible_root_address[i];
        let mut extractor = UiTreeNodeExtractor::new(memory);
        let ghost pairs_before = spec_root_candidates(*memory, addrs.subrange(0, i as int));
        match extractor.extract_ui_tree_from_address(address, TRACKER_MAX_DEPTH) {
            Ok((node, _)) => {
                let size = node.ui_node.count_descendants();
                proof {
                    let pairs_now = spec_root_candidates(*memory, addrs.subrange(0, i + 1));
                    assert(pairs_now == pairs_before.push((address, size as int)));
                    assert(pairs_now.drop_last() =~= pairs_before);
                    assert(pairs_now.last() == (address, size as int));
                    assert(spec_best_root_pair(pairs_now) == (match spec_best_root_pair(
                        pairs_before,
                    ) {
                        None => Some((address, size as int)),
                        Some(b) => if b.1 > size as int {
                            Some(b)
                        } else {
                            Some((address, size as int))
                        },
                    }));
                }
                best = match best {
                    Some(p) => if p.1 > size {
                        Some(p)
                    } else {
                        Some((address, size))
                    },
                    None => Some((address, size)),
                };
            },
            Err(_) => {},
        }
        i = i + 1;
    }
    proof {
        assert(addrs.subrange(0, n as int) =~= addrs);
    }
    match best {
        Some(p) => Some(p.0),
        None => None,
    }
}

/// Chooses the tree address for a tracking pass: a stored address whose
/// tree still decodes is kept; else a fresh scan decides; failure to find
/// any root is `NotFound`. The second component says whether the address is
/// fresh (so the host can update its store).
pub fn extract_ui_tree_address(memory: &MemorySnapshot, stored: Option<u64>) -> (r: Result<
    (u64, bool),
    ExtractError,
>)
    ensures
        match stored {
            Some(address) => {
                if spec_read_ui_tree(*memory, address, spec_depth_of(TRACKER_MAX_DEPTH), None)
                    is Ok {
                    r == Ok::<(u64, bool), ExtractError>((address, false))
                } else {
                    match spec_best_root(
                        spec_root_candidates(*memory, spec_possible_root_addresses(*memory)),
                    ) {
                        Some(fresh) => r == Ok::<(u64, bool), ExtractError>((fresh, true)),
                        None => r == Err::<(u64, bool), ExtractError>(ExtractError::NotFound),
                    }
                }
            },
            None => match spec_best_root(
                spec_root_candidates(*memory, spec_possible_root_addresses(*memory)),
            ) {
                Some(fresh) => r == Ok::<(u64, bool), ExtractError>((fresh, true)),
                None => r == Err::<(u64, bool), ExtractError>(ExtractError::NotFound),
            },
        },
{
    match stored {
        Some(address) => {
            let mut extractor = UiTreeNodeExtractor::new(memory);
            match extractor.extract_ui_tree_from_address(address, TRACKER_MAX_DEPTH) {
                Ok(_) => Ok((address, false)),
                Err(_) => match get_root_address(memory) {
                    Some(fresh) => Ok((fresh, true)),
                    None => Err(ExtractError::NotFound),
                },
            }
        },
        None => match get_root_address(memory) {
            Some(fresh) => Ok((fresh, true)),
            None => Err(ExtractError::NotFound),
        },
    }
}

} // verus!
