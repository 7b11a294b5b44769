//! Walks over the memory of a process, and the search for live objects in it.
//!
//! Querying and reading memory is the caller's work. The walks here say which
//! address to query next, which range to read, and what the bytes mean.

use vstd::prelude::*;

use crate::pe::{larger, smaller};
use crate::resolve::RecoveryLayout;
use crate::search::{
    as_ints, carries_pair, find_vtable_pairs, hits, law_hits_are_the_wanted_indices, u64_at, u64_of,
    vtable_pairs,
};

verus! {

/// State of memory that is backed by storage.
pub const MEM_COMMIT: u32 = 0x1000;

/// Type of memory that belongs to one process alone.
pub const MEM_PRIVATE: u32 = 0x2_0000;

/// Protection bit of guard pages.
pub const PAGE_GUARD: u32 = 0x100;

/// Protection of pages without any access.
pub const PAGE_NOACCESS: u32 = 1;

/// How far a walk moves on where a query fails.
pub const PAGE_SIZE: usize = 0x1000;

/// The largest module image that is read.
pub const MODULE_SNAPSHOT_LIMIT: usize = 0x2000_0000;

/// How much of a region is read at once.
pub const PROCESS_SCAN_CHUNK: usize = 0x10_0000;

/// The first address at which process memory is searched.
pub const SCAN_START: usize = 0x1_0000;

/// The value that makes the controller thread schedule discovery: the bits of
/// the number minus one.
pub const SCHEDULE_NOW: u64 = 0xBFF0_0000_0000_0000;

/// The bits of the number ten to the twelfth, which no deadline reaches.
pub const DEADLINE_LIMIT: u64 = 0x426D_1A94_A200_0000;

/// The bits of negative zero.
pub const NEGATIVE_ZERO: u64 = 0x8000_0000_0000_0000;

/// What a memory query reports of the region around an address.
#[derive(Clone, Copy, Debug, PartialEq, Eq, Structural)]
pub struct Region {
    /// First address of the region.
    pub base: usize,
    /// Size of the region.
    pub size: usize,
    /// Whether the region is backed by storage.
    pub state: u32,
    /// Access that the region allows.
    pub protect: u32,
    /// What the region holds.
    pub kind: u32,
}

/// The sum of two addresses, or the last address where that is beyond it.
pub open spec fn clamped_sum(first: int, second: int) -> int {
    smaller(first + second, usize::MAX as int)
}

impl Region {
    /// Whether the region can be read without side effects.
    pub open spec fn readable(self) -> bool {
        &&& self.state == MEM_COMMIT
        &&& self.protect & PAGE_GUARD == 0
        &&& self.protect & PAGE_NOACCESS == 0
    }

    /// Whether the region is searched for objects.
    pub open spec fn searched(self) -> bool {
        self.readable() && self.kind == MEM_PRIVATE
    }

    /// The address behind the region.
    pub open spec fn end(self) -> int {
        clamped_sum(self.base as int, self.size as int)
    }
}

/// Whether a region can be read without side effects.
pub fn memory_is_readable(region: &Region) -> (result: bool)
    ensures
        result == region.readable(),
{
    region.state == MEM_COMMIT && region.protect & PAGE_GUARD == 0 && region.protect
        & PAGE_NOACCESS == 0
}

/// A part of memory to be read, and where it goes in the snapshot.
#[derive(Clone, Copy, Debug, PartialEq, Eq, Structural)]
pub struct ReadRange {
    /// First address.
    pub address: usize,
    /// Place in the snapshot.
    pub offset: usize,
    /// Number of bytes.
    pub length: usize,
}

/// Whether an image size is plausible.
pub fn plausible_module_size(size: usize) -> (result: bool)
    ensures
        result == (0 < size <= MODULE_SNAPSHOT_LIMIT),
{
    size != 0 && size <= MODULE_SNAPSHOT_LIMIT
}

/// The offset of the NT headers, from the DOS signature and the DOS header's
/// field, each where it could be read.
pub fn nt_header_offset(signature: Option<u16>, field: Option<u32>) -> (offset: Option<usize>)
    ensures
        offset == if signature == Some(0x5a4du16) && field is Some && field->0 <= 0x1_0000 {
            Some(field->0 as usize)
        } else {
            None
        },
{
    match (signature, field) {
        (Some(0x5a4d), Some(value)) => if value <= 0x1_0000 {
            Some(value as usize)
        } else {
            None
        },
        _ => None,
    }
}

/// The image size that the NT headers declare, each field where it could be read.
pub fn declared_module_size(signature: Option<u32>, magic: Option<u16>, size: Option<u32>) -> (
    result: Option<usize>)
    ensures
        result == if signature == Some(0x4550u32) && magic == Some(0x20bu16) && size is Some && 0
            < size->0 <= MODULE_SNAPSHOT_LIMIT {
            Some(size->0 as usize)
        } else {
            None
        },
{
    match (signature, magic, size) {
        (Some(0x4550), Some(0x20b), Some(value)) => if plausible_module_size(value as usize) {
            Some(value as usize)
        } else {
            None
        },
        _ => None,
    }
}

/// A walk that copies the readable parts of a range into a snapshot.
#[derive(Clone, Copy, Debug, PartialEq, Eq, Structural)]
pub struct SnapshotWalk {
    base: usize,
    end: usize,
    address: usize,
}

impl SnapshotWalk {
    /// First address of the range.
    pub closed spec fn start(self) -> usize {
        self.base
    }

    /// Address behind the range.
    pub closed spec fn stop(self) -> usize {
        self.end
    }

    /// The address up to which the range has been dealt with.
    pub closed spec fn reached(self) -> usize {
        self.address
    }

    /// The walk stays at or behind the start of its range.
    pub closed spec fn wf(self) -> bool {
        self.base <= self.address && self.base <= self.end
    }

    /// Begins the walk over a range.
    pub fn new(base: usize, size: usize) -> (walk: SnapshotWalk)
        ensures
            walk.wf(),
            walk.start() == base,
            walk.reached() == base,
            walk.stop() == clamped_sum(base as int, size as int),
    {
        SnapshotWalk { base, end: base.saturating_add(size), address: base }
    }

    /// The address to query next, until the range is dealt with.
    pub fn next_query(&self) -> (address: Option<usize>)
        ensures
            address == if self.reached() < self.stop() {
                Some(self.reached())
            } else {
                None
            },
    {
        if self.address < self.end {
            Some(self.address)
        } else {
            None
        }
    }

    /// Takes the answer to the query, and says what to read.
    ///
    /// Of a readable region, the part between the queried address and the end of
    /// the range is read. Where the query fails or tells nothing new, the walk
    /// goes on with the next page.
    pub fn region(&mut self, region: Option<Region>) -> (read: Option<ReadRange>)
        requires
            old(self).wf(),
            old(self).reached() < old(self).stop(),
        ensures
            final(self).wf(),
            final(self).start() == old(self).start(),
            final(self).stop() == old(self).stop(),
            final(self).reached() > old(self).reached(),
            ({
                let begin = larger(region->0.base as int, old(self).reached() as int);
                let end = smaller(region->0.end(), old(self).stop() as int);
                if region is Some && begin < end {
                    &&& final(self).reached() == end
                    &&& read == if region->0.readable() {
                        Some(
                            ReadRange {
                                address: begin as usize,
                                offset: (begin - old(self).start()) as usize,
                                length: (end - begin) as usize,
                            },
                        )
                    } else {
                        None
                    }
                } else {
                    &&& final(self).reached() == clamped_sum(
                        old(self).reached() as int,
                        PAGE_SIZE as int,
                    )
                    &&& read is None
                }
            }),
    {
        if let Some(found) = region {
            let begin: usize = if found.base < self.address {
                self.address
            } else {
                found.base
            };
            let last: usize = found.base.saturating_add(found.size);
            let end: usize = if last < self.end {
                last
            } else {
                self.end
            };
            if begin < end {
                self.address = end;
                if memory_is_readable(&found) {
                    return Some(
                        ReadRange { address: begin, offset: begin - self.base, length: end - begin },
                    );
                }
                return None;
            }
        }
        self.address = self.address.saturating_add(PAGE_SIZE);
        None
    }
}

/// Whether a deadline field holds a plausible value: minus one, or a number from
/// zero up to ten to the twelfth. The value is given as its bits.
pub open spec fn plausible_deadline(bits: u64) -> bool {
    bits == SCHEDULE_NOW || bits < DEADLINE_LIMIT || bits == NEGATIVE_ZERO
}

/// The absolute values by which a live object is recognized.
#[derive(Clone, Copy, Debug, PartialEq, Eq, Structural)]
pub struct ObjectPattern {
    /// Address of the primary vtable.
    pub primary: usize,
    /// Address of the secondary vtable.
    pub secondary: usize,
    /// Offset of the secondary vtable pointer in the object.
    pub secondary_offset: usize,
    /// Offset of the deadline in the object.
    pub deadline_offset: usize,
    /// Offset of the counter in the object.
    pub counter_offset: usize,
}

impl ObjectPattern {
    /// The pattern of a layout in a module at `module_base`, where the module's
    /// vtables have addresses.
    pub fn new(module_base: usize, layout: RecoveryLayout) -> (pattern: Option<ObjectPattern>)
        ensures
            match pattern {
                Some(found) => {
                    &&& found.primary == module_base + layout.primary_vtable_rva
                    &&& found.secondary == module_base + layout.secondary_vtable_rva
                    &&& found.secondary_offset == layout.secondary_object_offset
                    &&& found.deadline_offset == layout.discovery_deadline_offset
                    &&& found.counter_offset == layout.discovery_counter_offset
                },
                None => module_base + layout.primary_vtable_rva > usize::MAX || module_base
                    + layout.secondary_vtable_rva > usize::MAX,
            },
    {
        let primary = module_base.checked_add(layout.primary_vtable_rva as usize);
        let secondary = module_base.checked_add(layout.secondary_vtable_rva as usize);
        match (primary, secondary) {
            (Some(primary), Some(secondary)) => Some(
                ObjectPattern {
                    primary,
                    secondary,
                    secondary_offset: layout.secondary_object_offset as usize,
                    deadline_offset: layout.discovery_deadline_offset as usize,
                    counter_offset: layout.discovery_counter_offset as usize,
                },
            ),
            _ => None,
        }
    }

    /// The number of bytes that must be seen together to recognize an object.
    pub open spec fn size(self) -> int {
        self.secondary_offset + 8
    }

    /// Whether an address still holds the live object, from the words read at
    /// both vtable pointers and at the deadline, each where it could be read.
    pub fn is_live(
        &self,
        address: usize,
        primary: Option<u64>,
        secondary: Option<u64>,
        deadline: Option<u64>,
    ) -> (live: bool)
        ensures
            live == {
                &&& address != 0
                &&& primary == Some(self.primary as u64)
                &&& secondary == Some(self.secondary as u64)
                &&& deadline is Some
                &&& plausible_deadline(deadline->0)
            },
    {
        if address == 0 {
            return false;
        }
        match (primary, secondary, deadline) {
            (Some(first), Some(second), Some(bits)) => first == self.primary as u64 && second
                == self.secondary as u64 && (bits == SCHEDULE_NOW || bits < DEADLINE_LIMIT || bits
                == NEGATIVE_ZERO),
            _ => false,
        }
    }
}

/// The word to store at a resolved deadline field, where the field is aligned.
pub fn discovery_store(deadline_address: usize) -> (word: Option<u64>)
    ensures
        word == if deadline_address % 8 == 0 {
            Some(SCHEDULE_NOW)
        } else {
            None
        },
{
    if deadline_address % 8 == 0 {
        Some(SCHEDULE_NOW)
    } else {
        None
    }
}

/// The chunk that is read from `start` in a region that ends at `end`.
pub open spec fn chunk_end(start: int, end: int) -> int {
    smaller(start + PROCESS_SCAN_CHUNK, end)
}

/// Where the chunk after that begins. Chunks overlap by one byte less than an
/// object takes, so that no object falls between two of them.
pub open spec fn next_chunk_start(start: int, end: int, object_size: int) -> int {
    chunk_end(start, end) - (object_size - 1)
}

/// What the chunks of a region from `start` on show, where every read succeeds
/// and `memory` gives the byte at each address.
pub open spec fn region_pairs(
    memory: spec_fn(int) -> u8,
    start: int,
    end: int,
    pattern: ObjectPattern,
) -> Seq<int>
    decreases end - start,
    when 0 < pattern.size() <= PROCESS_SCAN_CHUNK
{
    if start >= end {
        Seq::empty()
    } else {
        let stop = chunk_end(start, end);
        let bytes = Seq::new((stop - start) as nat, |index: int| memory(start + index));
        let found = vtable_pairs(
            bytes,
            start,
            pattern.primary as u64,
            pattern.secondary as u64,
            pattern.secondary_offset as int,
        );
        if stop == end {
            found
        } else {
            found + region_pairs(
                memory,
                next_chunk_start(start, end, pattern.size()),
                end,
                pattern,
            )
        }
    }
}

/// Whether memory holds the pattern's two vtable pointers at an aligned address.
pub open spec fn object_at(memory: spec_fn(int) -> u8, address: int, pattern: ObjectPattern) -> bool {
    &&& address % 8 == 0
    &&& u64_at(Seq::new(8, |index: int| memory(address + index)), 0) == Some(pattern.primary as u64)
    &&& u64_at(
        Seq::new(8, |index: int| memory(address + pattern.secondary_offset + index)),
        0,
    ) == Some(pattern.secondary as u64)
}

proof fn lemma_word_in_chunk(memory: spec_fn(int) -> u8, start: int, length: int, offset: int)
    requires
        0 <= offset,
        offset + 8 <= length,
    ensures
        u64_at(Seq::new(length as nat, |index: int| memory(start + index)), offset) == u64_at(
            Seq::new(8, |index: int| memory(start + offset + index)),
            0,
        ),
{
    let bytes = Seq::new(length as nat, |index: int| memory(start + index));
    let word = Seq::new(8, |index: int| memory(start + offset + index));
    assert(bytes.subrange(offset, offset + 8) =~= word.subrange(0, 8));
}

/// One chunk shows exactly the objects that lie in it.
proof fn lemma_chunk_pairs(
    memory: spec_fn(int) -> u8,
    start: int,
    stop: int,
    pattern: ObjectPattern,
    address: int,
)
    requires
        0 <= start <= stop,
        pattern.primary != 0,
    ensures
        ({
            let bytes = Seq::new((stop - start) as nat, |index: int| memory(start + index));
            vtable_pairs(
                bytes,
                start,
                pattern.primary as u64,
                pattern.secondary as u64,
                pattern.secondary_offset as int,
            ).contains(address) <==> start <= address && address + pattern.size() <= stop
                && object_at(memory, address, pattern)
        }),
{
    let bytes = Seq::new((stop - start) as nat, |index: int| memory(start + index));
    let wanted = carries_pair(
        bytes,
        start,
        pattern.primary as u64,
        pattern.secondary as u64,
        pattern.secondary_offset as int,
    );
    let listed = hits(bytes.len() as int, wanted);
    let pairs = listed.map_values(|index: int| start + index);
    law_hits_are_the_wanted_indices(bytes.len() as int, wanted);
    let offset = address - start;
    if start <= address && address + pattern.size() <= stop {
        lemma_word_in_chunk(memory, start, stop - start, offset);
        lemma_word_in_chunk(memory, start, stop - start, offset + pattern.secondary_offset);
        assert(start + (offset + pattern.secondary_offset) == address + pattern.secondary_offset);
        assert(wanted(offset) == object_at(memory, address, pattern));
        if object_at(memory, address, pattern) {
            assert(listed.contains(offset));
            let at = choose|at: int| 0 <= at < listed.len() && listed[at] == offset;
            assert(pairs[at] == address);
        }
    }
    if pairs.contains(address) {
        let at = choose|at: int| 0 <= at < pairs.len() && pairs[at] == address;
        assert(listed[at] == offset);
        assert(listed.contains(offset));
        assert(wanted(offset));
    }
}

/// A region whose chunks can all be read shows exactly the objects that lie in
/// it, wherever they stand across the chunks.
pub proof fn law_a_region_shows_every_object(
    memory: spec_fn(int) -> u8,
    start: int,
    end: int,
    pattern: ObjectPattern,
    address: int,
)
    requires
        0 <= start,
        pattern.primary != 0,
        pattern.size() <= PROCESS_SCAN_CHUNK,
    ensures
        region_pairs(memory, start, end, pattern).contains(address) <==> start <= address && address
            + pattern.size() <= end && object_at(memory, address, pattern),
    decreases end - start,
{
    if start < end {
        let stop = chunk_end(start, end);
        lemma_chunk_pairs(memory, start, stop, pattern, address);
        if stop != end {
            let next = next_chunk_start(start, end, pattern.size());
            let bytes = Seq::new((stop - start) as nat, |index: int| memory(start + index));
            let found = vtable_pairs(
                bytes,
                start,
                pattern.primary as u64,
                pattern.secondary as u64,
                pattern.secondary_offset as int,
            );
            let rest = region_pairs(memory, next, end, pattern);
            law_a_region_shows_every_object(memory, next, end, pattern, address);
            lemma_contains_of_both(found, rest, address);
        }
    }
}

/// What a search has found once the pending part of its region was read chunk by
/// chunk, each read delivering what `memory` holds.
pub open spec fn found_after_region(
    found: Seq<int>,
    pending: Option<(usize, usize)>,
    memory: spec_fn(int) -> u8,
    pattern: ObjectPattern,
) -> Seq<int>
    decreases
            match pending {
                Some((start, end)) => end - start,
                None => -1,
            },
    when 0 < pattern.size() <= PROCESS_SCAN_CHUNK
{
    match pending {
        Some((start, end)) if start < end => {
            let stop = chunk_end(start as int, end as int);
            let bytes = Seq::new((stop - start) as nat, |index: int| memory(start + index));
            let more = found + vtable_pairs(
                bytes,
                start as int,
                pattern.primary as u64,
                pattern.secondary as u64,
                pattern.secondary_offset as int,
            );
            if stop == end {
                more
            } else {
                found_after_region(
                    more,
                    Some(
                        (next_chunk_start(start as int, end as int, pattern.size()) as usize, end),
                    ),
                    memory,
                    pattern,
                )
            }
        },
        _ => found,
    }
}

/// Reading a region chunk by chunk finds what the region shows.
pub proof fn law_chunks_find_what_the_region_shows(
    found: Seq<int>,
    start: usize,
    end: usize,
    memory: spec_fn(int) -> u8,
    pattern: ObjectPattern,
)
    requires
        pattern.size() <= PROCESS_SCAN_CHUNK,
    ensures
        found_after_region(found, Some((start, end)), memory, pattern) == found + region_pairs(
            memory,
            start as int,
            end as int,
            pattern,
        ),
    decreases end - start,
{
    if start < end {
        let stop = chunk_end(start as int, end as int);
        let bytes = Seq::new((stop - start) as nat, |index: int| memory(start + index));
        let pairs = vtable_pairs(
            bytes,
            start as int,
            pattern.primary as u64,
            pattern.secondary as u64,
            pattern.secondary_offset as int,
        );
        if stop != end {
            let next = next_chunk_start(start as int, end as int, pattern.size()) as usize;
            law_chunks_find_what_the_region_shows(found + pairs, next, end, memory, pattern);
            let rest = region_pairs(memory, next as int, end as int, pattern);
            assert(found + pairs + rest =~= found + (pairs + rest));
        }
    } else {
        assert(found + Seq::<int>::empty() =~= found);
    }
}

/// What the search for live objects does next.
#[derive(Clone, Copy, Debug, PartialEq, Eq, Structural)]
pub enum ScanStep {
    /// Query the region around an address.
    Query(usize),
    /// Read that many bytes from an address.
    Read(usize, usize),
    /// The search is over.
    Finished,
}

/// A search of private memory for objects that carry both vtable pointers.
pub struct ObjectScan {
    pattern: ObjectPattern,
    address: usize,
    chunk: Option<(usize, usize)>,
    finished: bool,
    candidates: Vec<usize>,
}

impl ObjectScan {
    /// What is searched for.
    pub closed spec fn pattern(&self) -> ObjectPattern {
        self.pattern
    }

    /// The address up to which memory was searched.
    pub closed spec fn reached(&self) -> usize {
        self.address
    }

    /// The part of the present region that is still to be read.
    pub closed spec fn pending(&self) -> Option<(usize, usize)> {
        self.chunk
    }

    /// Whether the search is over once the present region is.
    pub closed spec fn ended(&self) -> bool {
        self.finished
    }

    /// The addresses found so far.
    pub closed spec fn found(&self) -> Seq<int> {
        as_ints(self.candidates@)
    }

    /// The pattern fits a chunk and what is pending is not empty.
    pub closed spec fn wf(&self) -> bool {
        &&& self.pattern.size() <= PROCESS_SCAN_CHUNK
        &&& self.chunk matches Some((start, end)) ==> start < end
    }

    /// The next step.
    pub open spec fn step(&self) -> ScanStep {
        match self.pending() {
            Some((start, end)) => ScanStep::Read(
                start,
                (chunk_end(start as int, end as int) - start) as usize,
            ),
            None => if self.ended() || self.reached() >= usize::MAX / 2 {
                ScanStep::Finished
            } else {
                ScanStep::Query(self.reached())
            },
        }
    }

    /// Whether this is the beginning of a search.
    pub open spec fn begins(&self, pattern: ObjectPattern) -> bool {
        &&& self.wf()
        &&& self.pattern() == pattern
        &&& self.reached() == SCAN_START
        &&& self.pending() is None
        &&& !self.ended()
        &&& self.found() == Seq::<int>::empty()
    }

    /// Whether the answer to a query leads to the next state. A failed query ends the
    /// search, and so does a region that does not reach beyond the queried address.
    /// Readable private regions are read.
    pub open spec fn takes_region(&self, region: Option<Region>, next: ObjectScan) -> bool {
        &&& next.pattern() == self.pattern()
        &&& next.found() == self.found()
        &&& match region {
            Some(found) => {
                &&& next.pending() == if found.searched() && found.base < found.end() {
                    Some((found.base, found.end() as usize))
                } else {
                    None
                }
                &&& next.ended() == (found.end() <= self.reached())
                &&& next.reached() == if next.ended() {
                    self.reached() as int
                } else {
                    found.end()
                }
            },
            None => {
                &&& next.pending() is None
                &&& next.ended()
                &&& next.reached() == self.reached()
            },
        }
    }

    /// Whether the bytes of a read lead to the next state. Only delivered bytes are
    /// looked at.
    pub open spec fn takes_chunk(&self, bytes: Option<Seq<u8>>, next: ObjectScan) -> bool {
        let (start, end) = self.pending()->0;
        let pattern = self.pattern();
        &&& next.pattern() == pattern
        &&& next.reached() == self.reached()
        &&& next.ended() == self.ended()
        &&& next.found() == match bytes {
            Some(read) => self.found() + vtable_pairs(
                read,
                start as int,
                pattern.primary as u64,
                pattern.secondary as u64,
                pattern.secondary_offset as int,
            ),
            None => self.found(),
        }
        &&& next.pending() == if chunk_end(start as int, end as int) == end {
            None
        } else {
            Some((next_chunk_start(start as int, end as int, pattern.size()) as usize, end))
        }
    }

    /// Begins the search.
    pub fn new(pattern: ObjectPattern) -> (scan: ObjectScan)
        requires
            pattern.size() <= PROCESS_SCAN_CHUNK,
        ensures
            scan.begins(pattern),
    {
        let scan = ObjectScan {
            pattern,
            address: SCAN_START,
            chunk: None,
            finished: false,
            candidates: Vec::new(),
        };
        assert(scan.found() =~= Seq::empty());
        scan
    }

    /// What to do next.
    pub fn next_step(&self) -> (step: ScanStep)
        requires
            self.wf(),
        ensures
            step == self.step(),
    {
        match self.chunk {
            Some((start, end)) => if end - start > PROCESS_SCAN_CHUNK {
                ScanStep::Read(start, PROCESS_SCAN_CHUNK)
            } else {
                ScanStep::Read(start, end - start)
            },
            None => if self.finished || self.address >= usize::MAX / 2 {
                ScanStep::Finished
            } else {
                ScanStep::Query(self.address)
            },
        }
    }

    /// Takes the answer to a query.
    ///
    /// A failed query ends the search, and so does a region that does not reach
    /// beyond the queried address. Readable private regions are read.
    pub fn region(&mut self, region: Option<Region>)
        requires
            old(self).wf(),
            old(self).step() is Query,
        ensures
            final(self).wf(),
            old(self).takes_region(region, *final(self)),
    {
        match region {
            Some(found) => {
                let end: usize = found.base.saturating_add(found.size);
                if memory_is_readable(&found) && found.kind == MEM_PRIVATE && found.base < end {
                    self.chunk = Some((found.base, end));
                }
                if end <= self.address {
                    self.finished = true;
                } else {
                    self.address = end;
                }
            },
            None => {
                self.finished = true;
            },
        }
    }

    /// Takes the bytes that a read delivered; `None` where it failed.
    ///
    /// Only delivered bytes are looked at. A candidate made up from anything else
    /// could later be written to.
    pub fn chunk_read(&mut self, bytes: Option<&[u8]>)
        requires
            old(self).wf(),
            old(self).step() is Read,
            bytes matches Some(read) ==> read@.len() <= old(self).step()->1,
        ensures
            final(self).wf(),
            old(self).takes_chunk(
                match bytes {
                    Some(read) => Some(read@),
                    None => None,
                },
                *final(self),
            ),
    {
        if let Some((start, end)) = self.chunk {
            if let Some(read) = bytes {
                let mut pairs = find_vtable_pairs(
                    read,
                    start,
                    self.pattern.primary,
                    self.pattern.secondary,
                    self.pattern.secondary_offset,
                );
                let ghost before = self.candidates@;
                let ghost listed = pairs@;
                self.candidates.append(&mut pairs);
                assert(as_ints(before + listed) =~= as_ints(before) + as_ints(listed));
            }
            if end - start > PROCESS_SCAN_CHUNK {
                let stop: usize = start + PROCESS_SCAN_CHUNK;
                self.chunk = Some((stop - (self.pattern.secondary_offset + 7), end));
            } else {
                self.chunk = None;
            }
        }
    }

    /// The addresses found, with repetitions where chunks overlap.
    pub fn into_candidates(self) -> (candidates: Vec<usize>)
        ensures
            as_ints(candidates@) == self.found(),
    {
        self.candidates
    }
}

/// Whether states are one whole search with these answers, each read delivering what
/// `memory` holds. An answer counts only where a query asked for it.
pub open spec fn is_search(
    scans: Seq<ObjectScan>,
    answers: Seq<Option<Region>>,
    memory: spec_fn(int) -> u8,
    pattern: ObjectPattern,
) -> bool {
    &&& scans.len() == answers.len() + 1
    &&& scans[0].begins(pattern)
    &&& forall|index: int|
        0 <= index < answers.len() ==> (#[trigger] scans[index]).wf() && scans[index].moves(
            answers[index],
            memory,
            scans[index + 1],
        )
}

impl ObjectScan {
    /// Whether the next state follows, the query having this answer or the read
    /// delivering what `memory` holds.
    pub open spec fn moves(
        &self,
        answer: Option<Region>,
        memory: spec_fn(int) -> u8,
        next: ObjectScan,
    ) -> bool {
        match self.step() {
            ScanStep::Query(_) => self.takes_region(answer, next),
            ScanStep::Read(address, length) => self.takes_chunk(
                Some(Seq::new(length as nat, |index: int| memory(address + index))),
                next,
            ),
            ScanStep::Finished => false,
        }
    }
}

/// Whether an object lies in a searched region that a query was answered with.
pub open spec fn lies_in_answer(
    scans: Seq<ObjectScan>,
    answers: Seq<Option<Region>>,
    memory: spec_fn(int) -> u8,
    pattern: ObjectPattern,
    address: int,
) -> bool {
    &&& object_at(memory, address, pattern)
    &&& exists|index: int|
        0 <= index < answers.len() && (#[trigger] scans[index]).step() is Query && holds_object(
            answers[index],
            pattern,
            address,
        )
}

/// Whether an object at an address would lie in a region that is searched.
pub open spec fn holds_object(
    answer: Option<Region>,
    pattern: ObjectPattern,
    address: int,
) -> bool {
    match answer {
        Some(region) => region.searched() && region.base <= address && address + pattern.size()
            <= region.end(),
        None => false,
    }
}

proof fn lemma_search_so_far(
    scans: Seq<ObjectScan>,
    answers: Seq<Option<Region>>,
    memory: spec_fn(int) -> u8,
    pattern: ObjectPattern,
    address: int,
)
    requires
        is_search(scans, answers, memory, pattern),
        pattern.primary != 0,
        pattern.size() <= PROCESS_SCAN_CHUNK,
    ensures
        scans.last().pattern() == pattern,
        found_after_region(
            scans.last().found(),
            scans.last().pending(),
            memory,
            pattern,
        ).contains(address) <==> lies_in_answer(scans, answers, memory, pattern, address),
    decreases answers.len(),
{
    if answers.len() > 0 {
        let last = answers.len() - 1;
        let fewer = scans.drop_last();
        let earlier = answers.drop_last();
        assert forall|index: int| 0 <= index < earlier.len() implies (#[trigger] fewer[index]).wf()
            && fewer[index].moves(earlier[index], memory, fewer[index + 1]) by {
            assert(scans[index].wf());
        }
        lemma_search_so_far(fewer, earlier, memory, pattern, address);
        let before = scans[last];
        let after = scans.last();
        assert(before == fewer.last());
        assert(before.wf() && before.moves(answers[last], memory, after));
        let known = lies_in_answer(fewer, earlier, memory, pattern, address);
        let now = before.step() is Query && holds_object(answers[last], pattern, address)
            && object_at(memory, address, pattern);
        assert(lies_in_answer(scans, answers, memory, pattern, address) == (known || now)) by {
            if known {
                let index = choose|index: int|
                    0 <= index < earlier.len() && (#[trigger] fewer[index]).step() is Query
                        && holds_object(earlier[index], pattern, address);
                assert(scans[index].step() is Query);
            }
            if lies_in_answer(scans, answers, memory, pattern, address) {
                let index = choose|index: int|
                    0 <= index < answers.len() && (#[trigger] scans[index]).step() is Query
                        && holds_object(answers[index], pattern, address);
                if index < last {
                    assert(fewer[index].step() is Query);
                }
            }
        }
        match before.step() {
            ScanStep::Query(_) => {
                if let Some((start, end)) = after.pending() {
                    law_chunks_find_what_the_region_shows(
                        before.found(),
                        start,
                        end,
                        memory,
                        pattern,
                    );
                    law_a_region_shows_every_object(
                        memory,
                        start as int,
                        end as int,
                        pattern,
                        address,
                    );
                    lemma_contains_of_both(
                        before.found(),
                        region_pairs(memory, start as int, end as int, pattern),
                        address,
                    );
                }
            },
            _ => {},
        }
    }
}

proof fn lemma_contains_of_both(first: Seq<int>, second: Seq<int>, value: int)
    ensures
        (first + second).contains(value) <==> first.contains(value) || second.contains(value),
{
    let both = first + second;
    if first.contains(value) {
        let at = choose|at: int| 0 <= at < first.len() && first[at] == value;
        assert(both[at] == value);
    }
    if second.contains(value) {
        let at = choose|at: int| 0 <= at < second.len() && second[at] == value;
        assert(both[first.len() + at] == value);
    }
    if both.contains(value) {
        let at = choose|at: int| 0 <= at < both.len() && both[at] == value;
        if at < first.len() {
            assert(first[at] == value);
        } else {
            assert(second[at - first.len()] == value);
        }
    }
}

/// A whole search in which every read succeeds finds exactly the objects that lie in
/// the readable private regions with which its queries were answered.
pub proof fn law_a_search_finds_every_object(
    scans: Seq<ObjectScan>,
    answers: Seq<Option<Region>>,
    memory: spec_fn(int) -> u8,
    pattern: ObjectPattern,
    address: int,
)
    requires
        is_search(scans, answers, memory, pattern),
        scans.last().step() is Finished,
        pattern.primary != 0,
        pattern.size() <= PROCESS_SCAN_CHUNK,
    ensures
        scans.last().found().contains(address) <==> lies_in_answer(
            scans,
            answers,
            memory,
            pattern,
            address,
        ),
{
    lemma_search_so_far(scans, answers, memory, pattern, address);
}

/// Whether a list ascends strictly.
pub open spec fn ascending(list: Seq<usize>) -> bool {
    forall|first: int, second: int| 0 <= first < second < list.len() ==> list[first] < list[second]
}

/// Puts a value into an ascending list unless it is there.
fn insert_ascending(list: &mut Vec<usize>, value: usize)
    requires
        ascending(old(list)@),
    ensures
        ascending(final(list)@),
        forall|other: usize| #[trigger]
            final(list)@.contains(other) <==> old(list)@.contains(other) || other == value,
{
    let ghost before = list@;
    let mut index: usize = 0;
    while index < list.len() && list[index] < value
        invariant
            list@ == before,
            ascending(before),
            index <= list.len(),
            forall|at: int| 0 <= at < index ==> before[at] < value,
        decreases list.len() - index,
    {
        index = index + 1;
    }
    if index < list.len() && list[index] == value {
        assert(before[index as int] == value);
        return;
    }
    list.insert(index, value);
    proof {
        assert(list@ =~= before.insert(index as int, value));
        assert forall|other: usize| #[trigger] list@.contains(other) <==> before.contains(other)
            || other == value by {
            if before.contains(other) {
                let at = choose|at: int| 0 <= at < before.len() && before[at] == other;
                assert(list@[if at < index {
                    at
                } else {
                    at + 1
                }] == other);
            }
            if list@.contains(other) && other != value {
                let at = choose|at: int| 0 <= at < list@.len() && list@[at] == other;
                assert(before[if at < index {
                    at
                } else {
                    at - 1
                }] == other);
            }
            assert(list@[index as int] == value);
        }
    }
}

/// Keeps the candidates that proved live, in ascending order and each once.
pub fn live_candidates(candidates: &[usize], live: &[bool]) -> (kept: Vec<usize>)
    requires
        candidates@.len() == live@.len(),
    ensures
        ascending(kept@),
        forall|address: usize| #[trigger]
            kept@.contains(address) <==> exists|index: int|
                0 <= index < candidates@.len() && #[trigger] candidates@[index] == address
                    && live@[index],
{
    let mut kept: Vec<usize> = Vec::new();
    let mut index: usize = 0;
    while index < candidates.len()
        invariant
            index <= candidates.len(),
            candidates@.len() == live@.len(),
            ascending(kept@),
            forall|address: usize| #[trigger]
                kept@.contains(address) <==> exists|before: int|
                    0 <= before < index && #[trigger] candidates@[before] == address
                        && live@[before],
        decreases candidates.len() - index,
    {
        let ghost earlier = kept@;
        if live[index] {
            insert_ascending(&mut kept, candidates[index]);
        }
        proof {
            assert forall|address: usize| #[trigger] kept@.contains(address)
                <==> exists|before: int|
                0 <= before < index + 1 && #[trigger] candidates@[before] == address
                    && live@[before] by {
                if earlier.contains(address) {
                    let before = choose|before: int|
                        0 <= before < index && #[trigger] candidates@[before] == address
                            && live@[before];
                    assert(candidates@[before] == address);
                }
                if live@[index as int] && candidates@[index as int] == address {
                    assert(candidates@[index as int] == address);
                }
                if exists|before: int|
                    0 <= before < index + 1 && #[trigger] candidates@[before] == address
                        && live@[before] {
                    let before = choose|before: int|
                        0 <= before < index + 1 && #[trigger] candidates@[before] == address
                            && live@[before];
                    assert(before < index ==> earlier.contains(address));
                }
            }
        }
        index = index + 1;
    }
    kept
}

/// What a search for one object came to.
#[derive(Clone, Copy, Debug, PartialEq, Eq, Structural)]
pub enum Verdict {
    /// No object was found.
    Missing,
    /// Exactly one object was found.
    Found(usize),
    /// Several addresses look like the object.
    Ambiguous,
}

/// Judges the live candidates.
pub fn judge(candidates: &[usize]) -> (verdict: Verdict)
    ensures
        verdict == if candidates@.len() == 0 {
            Verdict::Missing
        } else if candidates@.len() == 1 {
            Verdict::Found(candidates@[0])
        } else {
            Verdict::Ambiguous
        },
{
    if candidates.len() == 0 {
        Verdict::Missing
    } else if candidates.len() == 1 {
        Verdict::Found(candidates[0])
    } else {
        Verdict::Ambiguous
    }
}

/// A bound on how often an expensive search is repeated.
///
/// Status replies ask for the outcome every time, so an unbounded search would
/// run on every poll. Recovery itself is never answered from a spent budget.
#[derive(Clone, Copy, Debug, PartialEq, Eq, Structural)]
pub struct SearchBudget {
    /// Failed attempts since the budget was renewed.
    pub attempts: u32,
    /// Attempts that may fail.
    pub limit: u32,
}

/// How often the layout is searched for.
pub const RECOVERY_LAYOUT_MAX_ATTEMPTS: u32 = 4;

/// How often the controller thread is searched for.
pub const HID_THREAD_MAX_ATTEMPTS: u32 = 3;

impl SearchBudget {
    /// A full budget.
    pub fn new(limit: u32) -> (budget: SearchBudget)
        ensures
            budget.attempts == 0,
            budget.limit == limit,
    {
        SearchBudget { attempts: 0, limit }
    }

    /// Whether to search.
    pub fn allows(&self, ignore_budget: bool) -> (result: bool)
        ensures
            result == (ignore_budget || self.attempts < self.limit),
    {
        ignore_budget || self.attempts < self.limit
    }

    /// Counts a failed search.
    pub fn failed(&mut self)
        ensures
            final(self).limit == old(self).limit,
            final(self).attempts == if old(self).attempts < u32::MAX {
                (old(self).attempts + 1) as u32
            } else {
                u32::MAX
            },
    {
        self.attempts = self.attempts.saturating_add(1);
    }

    /// Renews the budget, after a success or when blocking becomes effective.
    pub fn renew(&mut self)
        ensures
            final(self).limit == old(self).limit,
            final(self).attempts == 0,
    {
        self.attempts = 0;
    }
}

/// What a question for the resolved layout comes to.
#[derive(Clone, Copy, Debug, PartialEq, Eq, Structural)]
pub enum LayoutAnswer {
    /// The pattern of live objects is known.
    Known(ObjectPattern),
    /// The budget is spent.
    Spent,
    /// Snapshot the module and resolve it now.
    Resolve,
}

/// The payload's memory of the resolved layout. Only success is remembered: an
/// early failure, before the module was loaded, must not last for the life of the
/// process.
#[derive(Clone, Copy, Debug, PartialEq, Eq, Structural)]
pub struct LayoutCache {
    /// The pattern, once it is known.
    pub pattern: Option<ObjectPattern>,
    /// The budget for further attempts.
    pub budget: SearchBudget,
}

impl LayoutCache {
    /// Nothing is known and the budget is full.
    pub fn new() -> (cache: LayoutCache)
        ensures
            cache.pattern is None,
            cache.budget == (SearchBudget { attempts: 0, limit: RECOVERY_LAYOUT_MAX_ATTEMPTS }),
    {
        LayoutCache { pattern: None, budget: SearchBudget::new(RECOVERY_LAYOUT_MAX_ATTEMPTS) }
    }

    /// What to do about the layout.
    pub fn runtime_recovery_layout(&self, ignore_budget: bool) -> (answer: LayoutAnswer)
        ensures
            answer == match self.pattern {
                Some(pattern) => LayoutAnswer::Known(pattern),
                None => if ignore_budget || self.budget.attempts < self.budget.limit {
                    LayoutAnswer::Resolve
                } else {
                    LayoutAnswer::Spent
                },
            },
    {
        match self.pattern {
            Some(pattern) => LayoutAnswer::Known(pattern),
            None => if self.budget.allows(ignore_budget) {
                LayoutAnswer::Resolve
            } else {
                LayoutAnswer::Spent
            },
        }
    }

    /// Takes the outcome of a resolution. The first success stays.
    pub fn resolved(&mut self, outcome: Option<ObjectPattern>)
        ensures
            match (old(self).pattern, outcome) {
                (Some(known), Some(_)) => *final(self) == *old(self),
                (None, Some(pattern)) => final(self).pattern == Some(pattern)
                    && final(self).budget == old(self).budget,
                (_, None) => {
                    &&& final(self).pattern == old(self).pattern
                    &&& final(self).budget.limit == old(self).budget.limit
                    &&& final(self).budget.attempts == if old(self).budget.attempts < u32::MAX {
                        (old(self).budget.attempts + 1) as u32
                    } else {
                        u32::MAX
                    }
                },
            },
    {
        match outcome {
            Some(pattern) => if self.pattern.is_none() {
                self.pattern = Some(pattern);
            },
            None => {
                self.budget.failed();
            },
        }
    }
}

/// What a question for the controller thread comes to.
#[derive(Clone, Copy, Debug, PartialEq, Eq, Structural)]
pub enum ThreadAnswer {
    /// The known address still holds the live object.
    Known(usize),
    /// The budget is spent.
    Spent,
    /// Search the process's memory now.
    Search,
}

/// The payload's memory of the controller thread's address. It is believed only
/// as long as the object there is live.
#[derive(Clone, Copy, Debug, PartialEq, Eq, Structural)]
pub struct ThreadCache {
    /// The address, or zero where none is known.
    pub address: usize,
    /// The budget for further searches.
    pub budget: SearchBudget,
}

impl ThreadCache {
    /// Nothing is known and the budget is full.
    pub fn new() -> (cache: ThreadCache)
        ensures
            cache.address == 0,
            cache.budget == (SearchBudget { attempts: 0, limit: HID_THREAD_MAX_ATTEMPTS }),
    {
        ThreadCache { address: 0, budget: SearchBudget::new(HID_THREAD_MAX_ATTEMPTS) }
    }

    /// What to do about the thread, given whether the known address is live.
    pub fn find_hid_thread(&mut self, live: bool, ignore_budget: bool) -> (answer: ThreadAnswer)
        ensures
            final(self).budget == old(self).budget,
            if live && old(self).address != 0 {
                &&& answer == ThreadAnswer::Known(old(self).address)
                &&& final(self).address == old(self).address
            } else {
                &&& final(self).address == 0
                &&& answer == if ignore_budget || old(self).budget.attempts < old(
                    self,
                ).budget.limit {
                    ThreadAnswer::Search
                } else {
                    ThreadAnswer::Spent
                }
            },
    {
        if live && self.address != 0 {
            return ThreadAnswer::Known(self.address);
        }
        self.address = 0;
        if self.budget.allows(ignore_budget) {
            ThreadAnswer::Search
        } else {
            ThreadAnswer::Spent
        }
    }

    /// Takes the outcome of a search.
    pub fn searched(&mut self, found: Option<usize>)
        ensures
            final(self).budget.limit == old(self).budget.limit,
            match found {
                Some(address) => final(self).address == address && final(self).budget.attempts == 0,
                None => {
                    &&& final(self).address == old(self).address
                    &&& final(self).budget.attempts == if old(self).budget.attempts < u32::MAX {
                        (old(self).budget.attempts + 1) as u32
                    } else {
                        u32::MAX
                    }
                },
            },
    {
        match found {
            Some(address) => {
                self.address = address;
                self.budget.renew();
            },
            None => {
                self.budget.failed();
            },
        }
    }

    /// The address of a field of the object, where it has one.
    pub fn field(object: usize, offset: usize) -> (address: Option<usize>)
        ensures
            address == if object + offset <= usize::MAX {
                Some((object + offset) as usize)
            } else {
                None
            },
    {
        object.checked_add(offset)
    }
}

/// How often searches that keep failing may run.
pub open spec fn failed_searches(budget: SearchBudget, polls: nat) -> (SearchBudget, nat)
    decreases polls,
{
    if polls == 0 {
        (budget, 0)
    } else {
        let (before, runs) = failed_searches(budget, (polls - 1) as nat);
        if before.attempts < before.limit {
            (SearchBudget { attempts: (before.attempts + 1) as u32, limit: before.limit }, runs + 1)
        } else {
            (before, runs)
        }
    }
}

/// However often the outcome is polled, searches that keep failing run at most as
/// often as a full budget allows.
pub proof fn law_polling_stays_within_the_budget(budget: SearchBudget, polls: nat)
    requires
        budget.attempts == 0,
    ensures
        failed_searches(budget, polls).1 <= budget.limit,
        failed_searches(budget, polls).0.attempts == failed_searches(budget, polls).1,
        failed_searches(budget, polls).0.limit == budget.limit,
    decreases polls,
{
    if polls > 0 {
        law_polling_stays_within_the_budget(budget, (polls - 1) as nat);
    }
}

/// A sum of addresses is exact where it has an address and the last address otherwise.
pub proof fn law_sums_stop_at_the_last_address(first: int, second: int)
    ensures
        first + second <= usize::MAX ==> clamped_sum(first, second) == first + second,
        first + second > usize::MAX ==> clamped_sum(first, second) == usize::MAX,
{
}

/// A region is read exactly where it is committed and neither guarded nor closed to
/// access, whatever other protection it has, and searched where it is private too.
pub proof fn law_readable_regions_are_committed_and_open(region: Region)
    ensures
        region.readable() <==> region.state == 0x1000 && region.protect / 0x100 % 2 == 0
            && region.protect % 2 == 0,
        region.searched() <==> region.readable() && region.kind == 0x2_0000,
        region.base + region.size <= usize::MAX ==> region.end() == region.base + region.size,
{
    let protect = region.protect;
    assert((protect & 0x100 == 0) == (protect / 0x100 % 2 == 0) && (protect & 1 == 0) == (protect
        % 2 == 0)) by (bit_vector);
}

/// Of the numbers that are not negative, a deadline may be any below ten to the twelfth,
/// and none else; of the negative ones only minus one and minus zero. Neither an infinity
/// nor a value that is no number is a deadline.
pub proof fn law_deadlines_are_bounded_numbers(bits: u64, smaller_bits: u64)
    ensures
        bits < 0x8000_0000_0000_0000 ==> (plausible_deadline(bits) <==> bits
            < 0x426D_1A94_A200_0000),
        bits >= 0x8000_0000_0000_0000 ==> (plausible_deadline(bits) <==> bits
            == 0x8000_0000_0000_0000 || bits == 0xBFF0_0000_0000_0000),
        bits < 0x8000_0000_0000_0000 && plausible_deadline(bits) && smaller_bits <= bits
            ==> plausible_deadline(smaller_bits),
        0x7FF0_0000_0000_0000 <= bits < 0x8000_0000_0000_0000 ==> !plausible_deadline(bits),
{
}

/// A chunk reaches to the end of its region or takes a whole megabyte, and the next one
/// begins so far before its end that every object lies in one of them whole.
pub proof fn law_no_object_falls_between_chunks(
    start: int,
    end: int,
    object_size: int,
    address: int,
)
    requires
        start < end,
        0 < object_size <= 0x10_0000,
        start <= address,
        address + object_size <= end,
    ensures
        start < chunk_end(start, end) <= end,
        chunk_end(start, end) < end ==> chunk_end(start, end) == start + 0x10_0000,
        address + object_size <= chunk_end(start, end) || next_chunk_start(
            start,
            end,
            object_size,
        ) <= address,
        chunk_end(start, end) < end ==> start < next_chunk_start(start, end, object_size)
            <= chunk_end(start, end),
{
}

/// A search begins at the first address that programs may use, and goes on from the end of
/// one region to the next. It is over only where a query failed, a region told nothing
/// new, or the upper half of the address space was reached.
pub proof fn law_a_search_ends_only_at_the_end(
    scans: Seq<ObjectScan>,
    answers: Seq<Option<Region>>,
    memory: spec_fn(int) -> u8,
    pattern: ObjectPattern,
)
    requires
        is_search(scans, answers, memory, pattern),
        scans.last().step() is Finished,
    ensures
        scans[0].step() == ScanStep::Query(0x1_0000),
        scans.last().reached() >= usize::MAX / 2 || exists|index: int|
            #![trigger scans[index]]
            0 <= index < answers.len() && (scans[index].step() matches ScanStep::Query(queried)
                && match answers[index] {
                Some(region) => region.base + region.size <= queried || region.end() <= queried,
                None => true,
            }),
{
    lemma_search_goes_on(scans, answers, memory, pattern);
}

proof fn lemma_search_goes_on(
    scans: Seq<ObjectScan>,
    answers: Seq<Option<Region>>,
    memory: spec_fn(int) -> u8,
    pattern: ObjectPattern,
)
    requires
        is_search(scans, answers, memory, pattern),
    ensures
        scans.last().ended() ==> exists|index: int|
            #![trigger scans[index]]
            0 <= index < answers.len() && (scans[index].step() matches ScanStep::Query(queried)
                && match answers[index] {
                Some(region) => region.base + region.size <= queried || region.end() <= queried,
                None => true,
            }),
    decreases answers.len(),
{
    if answers.len() > 0 {
        let last = answers.len() - 1;
        let fewer = scans.drop_last();
        let earlier = answers.drop_last();
        assert forall|index: int| 0 <= index < earlier.len() implies (#[trigger] fewer[index]).wf()
            && fewer[index].moves(earlier[index], memory, fewer[index + 1]) by {
            assert(scans[index].wf());
        }
        lemma_search_goes_on(fewer, earlier, memory, pattern);
        assert(fewer.last() == scans[last]);
        assert(scans[last].wf() && scans[last].moves(answers[last], memory, scans[last + 1]));
        if fewer.last().ended() {
            let index = choose|index: int|
                #![trigger fewer[index]]
                0 <= index < earlier.len() && (fewer[index].step() matches ScanStep::Query(queried)
                    && match earlier[index] {
                    Some(region) => region.base + region.size <= queried || region.end() <= queried,
                    None => true,
                });
            assert(scans[index] == fewer[index]);
        }
    }
}

/// The query that follows a region is for the address behind it, whether or not the region
/// was worth reading.
pub proof fn law_a_search_goes_on_behind_each_region(
    scan: ObjectScan,
    region: Region,
    next: ObjectScan,
)
    requires
        scan.step() is Query,
        scan.takes_region(Some(region), next),
        region.end() > scan.reached(),
    ensures
        next.reached() == region.end(),
        !next.ended(),
        next.pending() is None && next.reached() < usize::MAX / 2 ==> next.step()
            == ScanStep::Query(region.end() as usize),
        region.searched() && region.size > 0 && region.base < region.end() ==> next.pending()
            == Some((region.base, region.end() as usize)),
        !region.searched() ==> next.pending() is None,
{
}

/// Memory holds an object at an address exactly where that is aligned and both vtable
/// pointers stand there, the second at its offset.
pub proof fn law_an_object_is_told_by_both_pointers(
    memory: spec_fn(int) -> u8,
    address: int,
    pattern: ObjectPattern,
)
    ensures
        object_at(memory, address, pattern) <==> {
            &&& address % 8 == 0
            &&& u64_of(Seq::new(8, |index: int| memory(address + index))) == pattern.primary
            &&& u64_of(
                Seq::new(8, |index: int| memory(address + pattern.secondary_offset + index)),
            ) == pattern.secondary
        },
        pattern.size() == pattern.secondary_offset + 8,
{
    let first = Seq::new(8, |index: int| memory(address + index));
    let second = Seq::new(8, |index: int| memory(address + pattern.secondary_offset + index));
    assert(first.subrange(0, 8) =~= first);
    assert(second.subrange(0, 8) =~= second);
    lemma_word_fits(first);
    lemma_word_fits(second);
}

proof fn lemma_word_fits(bytes: Seq<u8>)
    ensures
        0 <= u64_of(bytes) <= u64::MAX,
{
}

/// A list that ascends holds nothing twice, so that one live object counts as one.
pub proof fn law_an_ascending_list_repeats_nothing(list: Seq<usize>)
    ensures
        ascending(list) ==> list.no_duplicates(),
        ascending(list) <==> forall|index: int|
            #![trigger list[index]]
            0 <= index < list.len() - 1 ==> list[index] < list[index + 1],
{
    if forall|index: int|
        #![trigger list[index]]
        0 <= index < list.len() - 1 ==> list[index] < list[index + 1] {
        assert forall|first: int, second: int| 0 <= first < second < list.len() implies list[first]
            < list[second] by {
            lemma_neighbours_ascend(list, first, second);
        }
    }
}

proof fn lemma_neighbours_ascend(list: Seq<usize>, first: int, second: int)
    requires
        0 <= first < second < list.len(),
        forall|index: int|
            #![trigger list[index]]
            0 <= index < list.len() - 1 ==> list[index] < list[index + 1],
    ensures
        list[first] < list[second],
    decreases second - first,
{
    if first + 1 < second {
        lemma_neighbours_ascend(list, first, second - 1);
    }
    assert(list[second - 1] < list[second]);
}

/// A search that goes on queries the address it has reached, up to the middle of the address
/// space; a failed query ends it and loses nothing that was found.
pub proof fn law_a_search_queries_where_it_stands(scan: ObjectScan, next: ObjectScan)
    requires
        scan.pending() is None,
    ensures
        scan.step() == ScanStep::Query(scan.reached()) <==> !scan.ended() && scan.reached()
            < usize::MAX / 2,
        scan.step() is Query || scan.step() is Finished,
        scan.takes_region(None, next) ==> next.step() is Finished && next.found() == scan.found()
            && next.reached() == scan.reached(),
{
}

} // verus!
