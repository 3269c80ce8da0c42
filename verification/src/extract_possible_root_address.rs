//! The three-phase heuristic scan that locates plausible root-object
//! addresses in an unstructured heap with no symbols.
//!
//! Phase one finds candidate type objects: 8-byte-aligned words whose
//! following word points back at the candidate itself and whose fourth word
//! points at the ASCII name `type`. Phase two rescans for objects whose type
//! pointer is one of those candidates, collecting their names; those named
//! `UIRoot` are the sought type objects. Phase three collects every object
//! whose type pointer is one of them. A candidate whose dependent reads fail
//! is silently excluded, never an error.

use vstd::prelude::*;
use crate::errors::ExtractError;
use crate::memory::MemorySnapshot;
use crate::memory::MemoryRegion;
use crate::memory::spec_words_of_bytes;
use crate::memory::transform_memory_content_as_ulong_memory;
use crate::python_memory_reader::spec_read;
use crate::text::spec_chars_of_bytes;
use crate::text::string_from_bytes_lossy;
use crate::python_memory_reader::spec_null_index;
use crate::python_memory_reader::spec_has_null;
use crate::values::str_eq;
use vstd::slice::slice_subrange;

verus! {

/// The string read by the bounded null-terminated scan at `address`: up to
/// 256 bytes; the text before the first zero byte, or empty when no zero
/// byte occurs; `None` exactly when the read fails.
pub open spec fn spec_name255(mem: MemorySnapshot, address: u64) -> Option<Seq<char>> {
    match spec_read(mem, address as int, 0x100) {
        Err(_) => None,
        Ok(bytes) => {
            if spec_has_null(bytes) {
                Some(spec_chars_of_bytes(bytes.subrange(0, spec_null_index(bytes))))
            } else {
                Some(Seq::empty())
            }
        },
    }
}

/// Whether aligned word `i` of a region starts a phase-one candidate: the
/// next word holds the candidate's own address and the word three further
/// names `type`.
pub open spec fn spec_phase1_hit(mem: MemorySnapshot, base: u64, words: Seq<u64>, i: int) -> bool {
    &&& 0 <= i
    &&& i + 4 <= words.len()
    &&& words[i + 1] as int == base + 8 * i
    &&& spec_name255(mem, words[i + 3]) == Some("type"@)
}

/// The phase-one candidate addresses among word indices `[0, i)`, ascending.
pub open spec fn spec_phase1_upto(mem: MemorySnapshot, base: u64, words: Seq<u64>, i: int) -> Seq<
    u64,
>
    decreases i,
{
    if i <= 0 {
        Seq::empty()
    } else {
        let rest = spec_phase1_upto(mem, base, words, i - 1);
        if spec_phase1_hit(mem, base, words, i - 1) {
            rest.push((base + 8 * (i - 1)) as u64)
        } else {
            rest
        }
    }
}

/// The scanned index bound of a region: four words are left unexamined at
/// the end, and a region of fewer than four words is not scanned at all.
pub open spec fn spec_scan_bound(word_count: int) -> int {
    if word_count >= 4 {
        word_count - 4
    } else {
        0
    }
}

/// The phase-one candidates of one region; a region that cannot be read in
/// full yields none.
pub open spec fn spec_phase1_region(mem: MemorySnapshot, region: MemoryRegion) -> Seq<u64> {
    match spec_read(mem, region.base_address as int, region.length as int) {
        Err(_) => Seq::empty(),
        Ok(bytes) => {
            let words = spec_words_of_bytes(bytes);
            spec_phase1_upto(mem, region.base_address, words, spec_scan_bound(words.len() as int))
        },
    }
}

/// The phase-one candidates of all regions, in region order.
pub open spec fn spec_phase1_all(mem: MemorySnapshot, regions: Seq<MemoryRegion>) -> Seq<u64>
    decreases regions.len(),
{
    if regions.len() == 0 {
        Seq::empty()
    } else {
        spec_phase1_all(mem, regions.drop_last()) + spec_phase1_region(mem, regions.last())
    }
}

/// Whether aligned word `i` points at one of the candidate type objects and
/// carries a readable name.
pub open spec fn spec_phase2_hit(
    mem: MemorySnapshot,
    words: Seq<u64>,
    candidates: Seq<u64>,
    i: int,
) -> bool {
    &&& 0 <= i
    &&& i + 4 <= words.len()
    &&& candidates.contains(words[i + 1])
    &&& spec_name255(mem, words[i + 3]) is Some
}

/// The phase-two pairs (candidate address, resolved name) among word
/// indices `[0, i)` of one region.
pub open spec fn spec_phase2_upto(
    mem: MemorySnapshot,
    base: u64,
    words: Seq<u64>,
    candidates: Seq<u64>,
    i: int,
) -> Seq<(u64, Seq<char>)>
    decreases i,
{
    if i <= 0 {
        Seq::empty()
    } else {
        let rest = spec_phase2_upto(mem, base, words, candidates, i - 1);
        if spec_phase2_hit(mem, words, candidates, i - 1) && base + 8 * (i - 1) <= u64::MAX {
            rest.push(
                ((base + 8 * (i - 1)) as u64, spec_name255(mem, words[i - 1 + 3]).unwrap()),
            )
        } else {
            rest
        }
    }
}

/// The phase-two pairs of one region.
pub open spec fn spec_phase2_region(
    mem: MemorySnapshot,
    region: MemoryRegion,
    candidates: Seq<u64>,
) -> Seq<(u64, Seq<char>)> {
    match spec_read(mem, region.base_address as int, region.length as int) {
        Err(_) => Seq::empty(),
        Ok(bytes) => {
            let words = spec_words_of_bytes(bytes);
            spec_phase2_upto(
                mem,
                region.base_address,
                words,
                candidates,
                spec_scan_bound(words.len() as int),
            )
        },
    }
}

/// The phase-two pairs of all regions, in region order; with no phase-one
/// candidates there is nothing to find.
pub open spec fn spec_phase2_all(
    mem: MemorySnapshot,
    regions: Seq<MemoryRegion>,
    candidates: Seq<u64>,
) -> Seq<(u64, Seq<char>)>
    decreases regions.len(),
{
    if candidates.len() == 0 {
        Seq::empty()
    } else if regions.len() == 0 {
        Seq::empty()
    } else {
        spec_phase2_all(mem, regions.drop_last(), candidates) + spec_phase2_region(
            mem,
            regions.last(),
            candidates,
        )
    }
}

/// The addresses among the pairs whose name reads `name`.
pub open spec fn spec_filter_named(pairs: Seq<(u64, Seq<char>)>, name: Seq<char>) -> Seq<u64>
    decreases pairs.len(),
{
    if pairs.len() == 0 {
        Seq::empty()
    } else {
        let rest = spec_filter_named(pairs.drop_last(), name);
        if pairs.last().1 == name {
            rest.push(pairs.last().0)
        } else {
            rest
        }
    }
}

/// Whether aligned word `i` points at one of the sought type objects.
pub open spec fn spec_phase3_hit(words: Seq<u64>, type_objects: Seq<u64>, i: int) -> bool {
    &&& 0 <= i
    &&& i + 4 <= words.len()
    &&& type_objects.contains(words[i + 1])
}

/// The phase-three instance addresses among word indices `[0, i)` of one
/// region.
pub open spec fn spec_phase3_upto(
    base: u64,
    words: Seq<u64>,
    type_objects: Seq<u64>,
    i: int,
) -> Seq<u64>
    decreases i,
{
    if i <= 0 {
        Seq::empty()
    } else {
        let rest = spec_phase3_upto(base, words, type_objects, i - 1);
        if spec_phase3_hit(words, type_objects, i - 1) && base + 8 * (i - 1) <= u64::MAX {
            rest.push((base + 8 * (i - 1)) as u64)
        } else {
            rest
        }
    }
}

/// The phase-three instances of one region.
pub open spec fn spec_phase3_region(
    mem: MemorySnapshot,
    region: MemoryRegion,
    type_objects: Seq<u64>,
) -> Seq<u64> {
    match spec_read(mem, region.base_address as int, region.length as int) {
        Err(_) => Seq::empty(),
        Ok(bytes) => {
            let words = spec_words_of_bytes(bytes);
            spec_phase3_upto(
                region.base_address,
                words,
                type_objects,
                spec_scan_bound(words.len() as int),
            )
        },
    }
}

/// The phase-three instances of all regions, in region order.
pub open spec fn spec_phase3_all(
    mem: MemorySnapshot,
    regions: Seq<MemoryRegion>,
    type_objects: Seq<u64>,
) -> Seq<u64>
    decreases regions.len(),
{
    if type_objects.len() == 0 {
        Seq::empty()
    } else if regions.len() == 0 {
        Seq::empty()
    } else {
        spec_phase3_all(mem, regions.drop_last(), type_objects) + spec_phase3_region(
            mem,
            regions.last(),
            type_objects,
        )
    }
}

/// The possible root-object addresses of a snapshot: the phase-three
/// instances of the phase-two candidates named `UIRoot`.
pub open spec fn spec_possible_root_addresses(mem: MemorySnapshot) -> Seq<u64> {
    let regions = mem.region_descriptors();
    let phase1 = spec_phase1_all(mem, regions);
    let ui_root_types = spec_filter_named(spec_phase2_all(mem, regions, phase1), "UIRoot"@);
    spec_phase3_all(mem, regions, ui_root_types)
}

/// The pairs held by a vector of named addresses.
pub open spec fn spec_named_view(s: Seq<(u64, String)>) -> Seq<(u64, Seq<char>)> {
    Seq::new(s.len(), |i: int| (s[i].0, s[i].1@))
}

/// The three-phase root-address scan.
pub struct ExtractPossibleRootAddress;

impl ExtractPossibleRootAddress {
    pub fn new() -> (r: ExtractPossibleRootAddress)
        ensures
            true,
    {
        ExtractPossibleRootAddress
    }

    /// Runs all three phases over every region of the snapshot. The output
    /// is a list of candidate addresses with no promise of uniqueness; a
    /// candidate whose reads failed is simply absent.
    pub fn execute(&self, memory: &MemorySnapshot) -> (r: Result<Vec<u64>, ExtractError>)
        ensures
            r matches Ok(v) && v@ == spec_possible_root_addresses(*memory),
    {
        let ordered_memory_regions = memory.committed_regions();
        let candidates = self.phase1_all_regions(memory, &ordered_memory_regions);
        let named = self.enumerate_candidates_for_python_type_objects(
            memory,
            &ordered_memory_regions,
            &candidates,
        );
        let ghost named_view = spec_named_view(named@);
        let mut ui_root_type_object_candidates: Vec<u64> = Vec::new();
        let named_count = named.len();
        let mut i: usize = 0;
        while i < named_count
            invariant
                named_count == named@.len(),
                named_view == spec_named_view(named@),
                0 <= i <= named_count,
                ui_root_type_object_candidates@ == spec_filter_named(
                    named_view.subrange(0, i as int),
                    "UIRoot"@,
                ),
            decreases named_count - i,
        {
            proof {
                assert(named_view.subrange(0, i + 1).drop_last() =~= named_view.subrange(
                    0,
                    i as int,
                ));
                assert(named_view.subrange(0, i + 1).last() == named_view[i as int]);
            }
            let pair = &named[i];
            if str_eq(pair.1.as_str(), "UIRoot") {
                ui_root_type_object_candidates.push(pair.0);
            }
            i = i + 1;
        }
        proof {
            assert(named_view.subrange(0, named_count as int) =~= named_view);
        }
        let instances = self.enumerate_candidates_for_instances_of_python_type(
            memory,
            &ui_root_type_object_candidates,
            &ordered_memory_regions,
        );
        Ok(instances)
    }

    /// The phase-one candidates of all regions, in region order.
    fn phase1_all_regions(
        &self,
        memory: &MemorySnapshot,
        memory_regions: &Vec<MemoryRegion>,
    ) -> (r: Vec<u64>)
        ensures
            r@ == spec_phase1_all(*memory, memory_regions@),
    {
        let mut out: Vec<u64> = Vec::new();
        let n = memory_regions.len();
        let mut i: usize = 0;
        while i < n
            invariant
                n == memory_regions@.len(),
                0 <= i <= n,
                out@ == spec_phase1_all(*memory, memory_regions@.subrange(0, i as int)),
            decreases n - i,
        {
            proof {
                assert(memory_regions@.subrange(0, i + 1).drop_last() =~= memory_regions@.subrange(
                    0,
                    i as int,
                ));
                assert(memory_regions@.subrange(0, i + 1).last() == memory_regions@[i as int]);
            }
            let mut region_candidates = self.enumerate_candidates_for_python_type_object_type_in_memory_region(
                memory,
                memory_regions[i],
            );
            let ghost before = out@;
            let ghost added = region_candidates@;
            out.append(&mut region_candidates);
            proof {
                assert(out@ =~= before + added);
            }
            i = i + 1;
        }
        proof {
            assert(memory_regions@.subrange(0, n as int) =~= memory_regions@);
        }
        out
    }

    /// The phase-one scan of one region: every 8-byte-aligned word that
    /// points back at itself one word later and at the name `type` three
    /// words later.
    #[verifier::loop_isolation(false)]
    pub fn enumerate_candidates_for_python_type_object_type_in_memory_region(
        &self,
        memory: &MemorySnapshot,
        memory_region: MemoryRegion,
    ) -> (r: Vec<u64>)
        ensures
            r@ == spec_phase1_region(*memory, memory_region),
    {
        let content = match self.read_memory_region_content_as_ulong_array(memory, memory_region) {
            Some(words) => words,
            None => {
                return Vec::new();
            },
        };
        let word_count = content.len();
        let bound: usize = if word_count >= 4 {
            word_count - 4
        } else {
            0
        };
        let mut result: Vec<u64> = Vec::new();
        let mut i: usize = 0;
        while i < bound
            invariant
                0 <= i <= bound,
                result@ == spec_phase1_upto(
                    *memory,
                    memory_region.base_address,
                    content@,
                    i as int,
                ),
            decreases bound - i,
        {
            let offset = (i as u64) * 8;
            proof {
                assert(8 * (i as int) <= 8 * content@.len());
            }
            match memory_region.base_address.checked_add(offset) {
                Some(candidate_address) => {
                    if content[i + 1] == candidate_address {
                        match self.read_null_terminated_ascii_string_from_address_up_to255(
                            memory,
                            content[i + 3],
                        ) {
                            Some(candidate_name) => {
                                if str_eq(candidate_name.as_str(), "type") {
                                    result.push(candidate_address);
                                }
                            },
                            None => {},
                        }
                    }
                },
                None => {},
            }
            i = i + 1;
        }
        result
    }

    /// The phase-two scan: every aligned word whose following word points at
    /// one of the phase-one candidates and whose name scan succeeds, paired
    /// with the resolved name.
    #[verifier::loop_isolation(false)]
    pub fn enumerate_candidates_for_python_type_objects(
        &self,
        memory: &MemorySnapshot,
        memory_regions: &Vec<MemoryRegion>,
        type_object_candidates: &Vec<u64>,
    ) -> (r: Vec<(u64, String)>)
        ensures
            spec_named_view(r@) == spec_phase2_all(
                *memory,
                memory_regions@,
                type_object_candidates@,
            ),
    {
        if type_object_candidates.len() == 0 {
            proof {
                assert(spec_named_view(Seq::<(u64, String)>::empty()) =~= Seq::<
                    (u64, Seq<char>),
                >::empty());
            }
            return Vec::new();
        }
        let mut out: Vec<(u64, String)> = Vec::new();
        proof {
            assert(spec_named_view(out@) =~= Seq::<(u64, Seq<char>)>::empty());
        }
        let n = memory_regions.len();
        let mut region_index: usize = 0;
        while region_index < n
            invariant
                0 <= region_index <= n,
                type_object_candidates@.len() > 0,
                spec_named_view(out@) == spec_phase2_all(
                    *memory,
                    memory_regions@.subrange(0, region_index as int),
                    type_object_candidates@,
                ),
            decreases n - region_index,
        {
            proof {
                assert(memory_regions@.subrange(0, region_index + 1).drop_last()
                    =~= memory_regions@.subrange(0, region_index as int));
                assert(memory_regions@.subrange(0, region_index + 1).last()
                    == memory_regions@[region_index as int]);
            }
            let memory_region = memory_regions[region_index];
            let content = match self.read_memory_region_content_as_ulong_array(
                memory,
                memory_region,
            ) {
                Some(words) => words,
                None => {
                    proof {
                        assert(spec_phase2_region(
                            *memory,
                            memory_region,
                            type_object_candidates@,
                        ) =~= Seq::<(u64, Seq<char>)>::empty());
                        assert(spec_named_view(out@) =~= spec_phase2_all(
                            *memory,
                            memory_regions@.subrange(0, region_index + 1),
                            type_object_candidates@,
                        ));
                    }
                    region_index = region_index + 1;
                    continue;
                },
            };
            let word_count = content.len();
            let bound: usize = if word_count >= 4 {
                word_count - 4
            } else {
                0
            };
            let ghost region_start = spec_named_view(out@);
            let mut i: usize = 0;
            while i < bound
                invariant
                    0 <= i <= bound,
                    spec_named_view(out@) == region_start + spec_phase2_upto(
                        *memory,
                        memory_region.base_address,
                        content@,
                        type_object_candidates@,
                        i as int,
                    ),
                decreases bound - i,
            {
                let offset = (i as u64) * 8;
                match memory_region.base_address.checked_add(offset) {
                    Some(candidate_address) => {
                        if contains_u64(type_object_candidates, content[i + 1]) {
                            match self.read_null_terminated_ascii_string_from_address_up_to255(
                                memory,
                                content[i + 3],
                            ) {
                                Some(candidate_name) => {
                                    let ghost gname = candidate_name@;
                                    let ghost prev_out = spec_named_view(out@);
                                    out.push((candidate_address, candidate_name));
                                    proof {
                                        let gi = i as int;
                                        let base = memory_region.base_address;
                                        assert(spec_named_view(out@) =~= prev_out.push(
                                            (candidate_address, gname),
                                        ));
                                        assert(spec_phase2_hit(
                                            *memory,
                                            content@,
                                            type_object_candidates@,
                                            gi,
                                        ));
                                        assert(spec_name255(*memory, content@[gi + 3]) == Some(
                                            gname,
                                        ));
                                        assert(spec_phase2_upto(
                                            *memory,
                                            base,
                                            content@,
                                            type_object_candidates@,
                                            gi + 1,
                                        ) =~= spec_phase2_upto(
                                            *memory,
                                            base,
                                            content@,
                                            type_object_candidates@,
                                            gi,
                                        ).push(((base + 8 * gi) as u64, gname)));
                                        assert(spec_named_view(out@) =~= region_start
                                            + spec_phase2_upto(
                                            *memory,
                                            base,
                                            content@,
                                            type_object_candidates@,
                                            gi + 1,
                                        ));
                                    }
                                },
                                None => {},
                            }
                        }
                    },
                    None => {},
                }
                i = i + 1;
            }
            proof {
                assert(spec_named_view(out@) =~= spec_phase2_all(
                    *memory,
                    memory_regions@.subrange(0, region_index + 1),
                    type_object_candidates@,
                ));
            }
            region_index = region_index + 1;
        }
        proof {
            assert(memory_regions@.subrange(0, n as int) =~= memory_regions@);
        }
        out
    }

    /// The phase-three scan: every aligned word whose following word points
    /// at one of the sought type objects.
    #[verifier::loop_isolation(false)]
    pub fn enumerate_candidates_for_instances_of_python_type(
        &self,
        memory: &MemorySnapshot,
        type_object_candidates: &Vec<u64>,
        memory_regions: &Vec<MemoryRegion>,
    ) -> (r: Vec<u64>)
        ensures
            r@ == spec_phase3_all(*memory, memory_regions@, type_object_candidates@),
    {
        if type_object_candidates.len() == 0 {
            return Vec::new();
        }
        let mut out: Vec<u64> = Vec::new();
        let n = memory_regions.len();
        let mut region_index: usize = 0;
        while region_index < n
            invariant
                0 <= region_index <= n,
                type_object_candidates@.len() > 0,
                out@ == spec_phase3_all(
                    *memory,
                    memory_regions@.subrange(0, region_index as int),
                    type_object_candidates@,
                ),
            decreases n - region_index,
        {
            proof {
                assert(memory_regions@.subrange(0, region_index + 1).drop_last()
                    =~= memory_regions@.subrange(0, region_index as int));
                assert(memory_regions@.subrange(0, region_index + 1).last()
                    == memory_regions@[region_index as int]);
            }
            let memory_region = memory_regions[region_index];
            let content = match self.read_memory_region_content_as_ulong_array(
                memory,
                memory_region,
            ) {
                Some(words) => words,
                None => {
                    region_index = region_index + 1;
                    continue;
                },
            };
            let word_count = content.len();
            let bound: usize = if word_count >= 4 {
                word_count - 4
            } else {
                0
            };
            let mut i: usize = 0;
            while i < bound
                invariant
                    0 <= i <= bound,
                    out@ == spec_phase3_all(
                        *memory,
                        memory_regions@.subrange(0, region_index as int),
                        type_object_candidates@,
                    ) + spec_phase3_upto(
                        memory_region.base_address,
                        content@,
                        type_object_candidates@,
                        i as int,
                    ),
                decreases bound - i,
            {
                let offset = (i as u64) * 8;
                match memory_region.base_address.checked_add(offset) {
                    Some(candidate_address) => {
                        if contains_u64(type_object_candidates, content[i + 1]) {
                            out.push(candidate_address);
                        }
                    },
                    None => {},
                }
                i = i + 1;
            }
            region_index = region_index + 1;
        }
        proof {
            assert(memory_regions@.subrange(0, n as int) =~= memory_regions@);
        }
        out
    }

    /// One region's content as 64-bit words, or `None` when the region
    /// cannot be read in full.
    pub fn read_memory_region_content_as_ulong_array(
        &self,
        memory: &MemorySnapshot,
        memory_region: MemoryRegion,
    ) -> (r: Option<Vec<u64>>)
        ensures
            match spec_read(*memory, memory_region.base_address as int, memory_region.length as int) {
                Ok(bytes) => r matches Some(words) && words@ == spec_words_of_bytes(bytes),
                Err(_) => r is None,
            },
    {
        match memory.read_bytes(memory_region.base_address, memory_region.length) {
            Ok(byte_array) => Some(transform_memory_content_as_ulong_memory(byte_array.as_slice())),
            Err(_) => None,
        }
    }

    /// The bounded null-terminated name scan; see [`spec_name255`].
    #[verifier::loop_isolation(false)]
    pub fn read_null_terminated_ascii_string_from_address_up_to255(
        &self,
        memory: &MemorySnapshot,
        address: u64,
    ) -> (r: Option<String>)
        ensures
            match spec_name255(*memory, address) {
                Some(name) => r matches Some(s) && s@ == name,
                None => r is None,
            },
    {
        let bytes = match memory.read_bytes(address, 0x100) {
            Ok(v) => v,
            Err(_) => {
                return None;
            },
        };
        let n = bytes.len();
        let mut length: usize = 0;
        let mut found_null = false;
        let mut i: usize = 0;
        while i < n && !found_null
            invariant
                n == bytes@.len(),
                0 <= i <= n,
                !found_null ==> length == 0 && forall|k: int| 0 <= k < i ==> bytes@[k] != 0,
                found_null ==> 0 <= length < n && bytes@[length as int] == 0 && forall|k: int|
                    0 <= k < length ==> bytes@[k] != 0,
            decreases n - i,
        {
            if bytes[i] == 0 {
                length = i;
                found_null = true;
            }
            i = i + 1;
        }
        proof {
            if found_null {
                crate::python_memory_reader::lemma_null_index_first(
                    bytes@,
                    length as int,
                );
            } else {
                assert(!spec_has_null(bytes@));
            }
            assert(bytes@.subrange(0, 0) =~= Seq::<u8>::empty());
        }
        let prefix = slice_subrange(bytes.as_slice(), 0, length);
        let name = string_from_bytes_lossy(prefix);
        proof {
            if !found_null {
                assert(name@ =~= Seq::<char>::empty());
            }
        }
        Some(name)
    }
}

/// Whether the vector holds `x`.
pub fn contains_u64(v: &Vec<u64>, x: u64) -> (r: bool)
    ensures
        r == v@.contains(x),
{
    let n = v.len();
    let mut i: usize = 0;
    while i < n
        invariant
            n == v@.len(),
            0 <= i <= n,
            forall|k: int| 0 <= k < i ==> v@[k] != x,
        decreases n - i,
    {
        if v[i] == x {
            return true;
        }
        i = i + 1;
    }
    proof {
        assert(!v@.contains(x)) by {
            if v@.contains(x) {
                let k = choose|k: int| 0 <= k < v@.len() && v@[k] == x;
            }
        }
    }
    false
}

} // verus!
