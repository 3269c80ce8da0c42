//! A snapshot of the committed memory of a foreign process.
//!
//! All decoding in this crate works over a [`MemorySnapshot`]: an immutable
//! set of byte ranges captured from the target's address space. The host
//! captures the ranges (one per committed, non-guarded OS region, with
//! contiguous ranges merged) and the library reads them through
//! [`MemorySnapshot::read_bytes`], which returns exactly the requested bytes
//! or fails — never a partial result.

use vstd::prelude::*;
use vstd::bytes::u64_from_le_bytes;
use vstd::bytes::spec_u64_from_le_bytes;
use vstd::slice::slice_subrange;
use crate::errors::ExtractError;

verus! {

/// Descriptor of one committed range of the target's address space.
#[derive(Clone, Copy, Debug, PartialEq, Eq, Structural)]
pub struct MemoryRegion {
    pub base_address: u64,
    pub length: u64,
}

/// One captured range: its base address and the bytes that were read there.
pub struct RegionContent {
    pub base_address: u64,
    pub bytes: Vec<u8>,
}

/// An immutable capture of the target's committed memory.
pub struct MemorySnapshot {
    regions: Vec<RegionContent>,
}

impl MemorySnapshot {
    /// The captured ranges, in ascending address order.
    pub closed spec fn regions_view(self) -> Seq<RegionContent> {
        self.regions@
    }

    /// Ranges are strictly ascending, pairwise disjoint, not even adjacent,
    /// and never wrap around the top of the address space.
    #[verifier::type_invariant]
    pub closed spec fn wf(self) -> bool {
        &&& forall|i: int|
            0 <= i < self.regions@.len() ==> (#[trigger] self.regions@[i]).base_address
                + self.regions@[i].bytes@.len() <= u64::MAX
        &&& forall|i: int|
            0 < i < self.regions@.len() ==> (#[trigger] self.regions@[i]).base_address
                > self.regions@[i - 1].base_address + self.regions@[i - 1].bytes@.len()
    }

    /// Whether the snapshot holds a byte for address `addr`.
    pub open spec fn covers(self, addr: int) -> bool {
        exists|i: int|
            0 <= i < self.regions_view().len() && (#[trigger] self.regions_view()[i]).base_address
                <= addr < self.regions_view()[i].base_address
                + self.regions_view()[i].bytes@.len()
    }

    /// The byte held for address `addr` (meaningful only when `covers(addr)`).
    pub open spec fn byte_at(self, addr: int) -> u8 {
        let i = choose|i: int|
            0 <= i < self.regions_view().len() && (#[trigger] self.regions_view()[i]).base_address
                <= addr < self.regions_view()[i].base_address
                + self.regions_view()[i].bytes@.len();
        self.regions_view()[i].bytes@[addr - self.regions_view()[i].base_address]
    }

    /// Whether every address of `[addr, addr + len)` is covered.
    pub open spec fn covers_range(self, addr: int, len: int) -> bool {
        forall|j: int| 0 <= j < len ==> self.covers(#[trigger] (addr + j))
    }

    /// The bytes held for `[addr, addr + len)`.
    pub open spec fn bytes_at(self, addr: int, len: int) -> Seq<u8> {
        Seq::new(len as nat, |j: int| self.byte_at(addr + j))
    }

    /// Builds a snapshot from captured ranges.
    ///
    /// Returns `None` unless the ranges are sorted by base address, pairwise
    /// disjoint, non-adjacent (merge contiguous ranges when capturing) and
    /// free of address wrap-around.
    pub fn from_regions(regions: Vec<RegionContent>) -> (r: Option<MemorySnapshot>)
        ensures
            r matches Some(s) ==> s.regions_view() == regions@,
    {
        let n = regions.len();
        let mut i: usize = 0;
        while i < n
            invariant
                n == regions@.len(),
                0 <= i <= n,
                forall|k: int|
                    0 <= k < i ==> (#[trigger] regions@[k]).base_address + regions@[k].bytes@.len()
                        <= u64::MAX,
                forall|k: int|
                    0 < k < i ==> (#[trigger] regions@[k]).base_address > regions@[k
                        - 1].base_address + regions@[k - 1].bytes@.len(),
            decreases n - i,
        {
            let region = &regions[i];
            let len = region.bytes.len() as u64;
            if len > u64::MAX - region.base_address {
                return None;
            }
            if i > 0 {
                let prev = &regions[i - 1];
                let prev_end = prev.base_address + prev.bytes.len() as u64;
                if region.base_address <= prev_end {
                    return None;
                }
            }
            i = i + 1;
        }
        Some(MemorySnapshot { regions })
    }

    /// The number of captured ranges.
    pub fn region_count(&self) -> (r: usize)
        ensures
            r == self.regions_view().len(),
    {
        self.regions.len()
    }

    /// The descriptors of the captured ranges, in order.
    pub open spec fn region_descriptors(self) -> Seq<MemoryRegion> {
        Seq::new(
            self.regions_view().len(),
            |i: int| MemoryRegion {
                base_address: self.regions_view()[i].base_address,
                length: self.regions_view()[i].bytes@.len() as u64,
            },
        )
    }

    /// Descriptors of the captured ranges, in order: what the OS region
    /// enumeration reported for this snapshot.
    pub fn committed_regions(&self) -> (r: Vec<MemoryRegion>)
        ensures
            r@ == self.region_descriptors(),
            r@.len() == self.regions_view().len(),
            forall|i: int|
                0 <= i < r@.len() ==> (#[trigger] r@[i]) == (MemoryRegion {
                    base_address: self.regions_view()[i].base_address,
                    length: self.regions_view()[i].bytes@.len() as u64,
                }),
    {
        let mut out: Vec<MemoryRegion> = Vec::new();
        let n = self.regions.len();
        let mut i: usize = 0;
        while i < n
            invariant
                n == self.regions_view().len(),
                0 <= i <= n,
                out@.len() == i,
                forall|k: int|
                    0 <= k < i ==> (#[trigger] out@[k]) == (MemoryRegion {
                        base_address: self.regions_view()[k].base_address,
                        length: self.regions_view()[k].bytes@.len() as u64,
                    }),
            decreases n - i,
        {
            let region = &self.regions[i];
            out.push(MemoryRegion { base_address: region.base_address, length: region.bytes.len() as u64 });
            i = i + 1;
        }
        proof {
            assert(out@ =~= self.region_descriptors());
        }
        out
    }

    /// Reads exactly `length` bytes at `address`, or fails with
    /// [`ExtractError::ReadFailure`]: a request that is not covered in full
    /// never returns a partial result.
    pub fn read_bytes(&self, address: u64, length: u64) -> (r: Result<Vec<u8>, ExtractError>)
        ensures
            r matches Ok(v) ==> {
                &&& v@.len() == length
                &&& self.covers_range(address as int, length as int)
                &&& v@ == self.bytes_at(address as int, length as int)
            },
            r matches Err(e) ==> e == ExtractError::ReadFailure && !self.covers_range(
                address as int,
                length as int,
            ),
    {
        proof {
            use_type_invariant(self);
        }
        if length == 0 {
            let empty: Vec<u8> = Vec::new();
            assert(empty@ =~= self.bytes_at(address as int, 0));
            return Ok(empty);
        }
        let n = self.regions.len();
        let mut i: usize = 0;
        while i < n
            invariant
                self.wf(),
                n == self.regions_view().len(),
                0 <= i <= n,
                length >= 1,
                forall|k: int|
                    0 <= k < i ==> !((#[trigger] self.regions_view()[k]).base_address <= address
                        < self.regions_view()[k].base_address
                        + self.regions_view()[k].bytes@.len()),
            decreases n - i,
        {
            let region = &self.regions[i];
            let len = region.bytes.len() as u64;
            if region.base_address <= address && address - region.base_address < len {
                let offset = address - region.base_address;
                if length <= len - offset {
                    let mut out: Vec<u8> = Vec::new();
                    let mut j: u64 = 0;
                    while j < length
                        invariant
                            self.wf(),
                            0 <= i < self.regions_view().len(),
                            region == self.regions_view()[i as int],
                            offset == address - region.base_address,
                            offset + length <= region.bytes@.len() <= u64::MAX,
                            region.bytes@.len() <= usize::MAX,
                            region.base_address + region.bytes@.len() <= u64::MAX,
                            0 <= j <= length,
                            out@.len() == j,
                            forall|k: int|
                                0 <= k < j ==> (#[trigger] out@[k]) == region.bytes@[offset + k],
                        decreases length - j,
                    {
                        out.push(region.bytes[(offset + j) as usize]);
                        j = j + 1;
                    }
                    proof {
                        assert forall|k: int| 0 <= k < length implies self.covers(
                            #[trigger] (address + k),
                        ) && self.byte_at(address + k) == region.bytes@[offset + k] by {
                            let a = address + k;
                            assert(self.regions_view()[i as int].base_address <= a
                                < self.regions_view()[i as int].base_address
                                + self.regions_view()[i as int].bytes@.len());
                            self.lemma_byte_at_unique(i as int, a);
                        }
                        assert(out@ =~= self.bytes_at(address as int, length as int));
                    }
                    return Ok(out);
                } else {
                    // The request overruns the only range that can serve its
                    // first byte, so some later byte is uncovered.
                    proof {
                        let end = region.base_address + region.bytes@.len();
                        assert(address <= end < address + length);
                        if self.covers(end) {
                            let k = choose|k: int|
                                0 <= k < self.regions_view().len()
                                    && (#[trigger] self.regions_view()[k]).base_address <= end
                                    < self.regions_view()[k].base_address
                                    + self.regions_view()[k].bytes@.len();
                            if k < i {
                                self.lemma_regions_ordered(k, i as int);
                            } else if (i as int) < k {
                                self.lemma_regions_ordered(i as int, k);
                            }
                        }
                        assert(!self.covers_range(address as int, length as int)) by {
                            assert(!self.covers(address + (end - address)));
                        }
                    }
                    return Err(ExtractError::ReadFailure);
                }
            }
            i = i + 1;
        }
        proof {
            assert(!self.covers(address as int));
            assert(!self.covers_range(address as int, length as int)) by {
                assert(!self.covers(address + 0));
            }
        }
        Err(ExtractError::ReadFailure)
    }

    /// With the invariant in force, distinct ranges cannot both hold `addr`,
    /// so `byte_at` is read off the unique covering range.
    proof fn lemma_byte_at_unique(self, i: int, addr: int)
        requires
            self.wf(),
            0 <= i < self.regions_view().len(),
            self.regions_view()[i].base_address <= addr < self.regions_view()[i].base_address
                + self.regions_view()[i].bytes@.len(),
        ensures
            self.covers(addr),
            self.byte_at(addr) == self.regions_view()[i].bytes@[addr - self.regions_view()[i].base_address],
    {
        assert(self.covers(addr));
        let k = choose|k: int|
            0 <= k < self.regions_view().len() && (#[trigger] self.regions_view()[k]).base_address
                <= addr < self.regions_view()[k].base_address
                + self.regions_view()[k].bytes@.len();
        if k < i {
            self.lemma_regions_ordered(k, i);
        } else if i < k {
            self.lemma_regions_ordered(i, k);
        }
    }

    /// Ranges are ordered: a strictly earlier range ends strictly before a
    /// strictly later one begins.
    proof fn lemma_regions_ordered(self, i: int, j: int)
        requires
            self.wf(),
            0 <= i < j < self.regions_view().len(),
        ensures
            self.regions_view()[i].base_address + self.regions_view()[i].bytes@.len()
                < self.regions_view()[j].base_address,
        decreases j - i,
    {
        if i + 1 < j {
            self.lemma_regions_ordered(i + 1, j);
        }
    }
}

/// Reinterprets a byte buffer as consecutive 64-bit little-endian words,
/// discarding any trailing bytes that do not fill a whole word.
pub open spec fn spec_words_of_bytes(bytes: Seq<u8>) -> Seq<u64> {
    Seq::new(bytes.len() / 8, |i: int| spec_u64_from_le_bytes(bytes.subrange(8 * i, 8 * i + 8)))
}

/// Reinterprets a byte buffer as consecutive 64-bit words in the target's
/// byte order (little-endian).
pub fn transform_memory_content_as_ulong_memory(byte_memory: &[u8]) -> (r: Vec<u64>)
    ensures
        r@ == spec_words_of_bytes(byte_memory@),
{
    let size = byte_memory.len() / 8;
    proof {
        assert(8 * (byte_memory@.len() / 8) <= byte_memory@.len()) by (nonlinear_arith);
    }
    let mut words: Vec<u64> = Vec::new();
    let mut i: usize = 0;
    while i < size
        invariant
            size == byte_memory@.len() / 8,
            8 * size <= byte_memory@.len() <= usize::MAX,
            0 <= i <= size,
            words@.len() == i,
            forall|k: int|
                0 <= k < i ==> (#[trigger] words@[k]) == spec_u64_from_le_bytes(
                    byte_memory@.subrange(8 * k, 8 * k + 8),
                ),
        decreases size - i,
    {
        let chunk = slice_subrange(byte_memory, 8 * i, 8 * i + 8);
        words.push(u64_from_le_bytes(chunk));
        i = i + 1;
    }
    proof {
        assert(words@ =~= spec_words_of_bytes(byte_memory@));
    }
    words
}

/// Grouping of the raw-byte helpers, mirroring how callers name them.
pub struct MemoryUtils;

impl MemoryUtils {
    /// See [`transform_memory_content_as_ulong_memory`].
    pub fn transform_memory_content_as_ulong_memory(byte_memory: &[u8]) -> (r: Vec<u64>)
        ensures
            r@ == spec_words_of_bytes(byte_memory@),
    {
        transform_memory_content_as_ulong_memory(byte_memory)
    }
}

} // verus!
