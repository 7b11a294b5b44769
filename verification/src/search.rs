//! Little-endian reads and exhaustive searches in byte snapshots.

use vstd::prelude::*;

verus! {

/// The indices below `end` at which `wanted` holds, in ascending order.
pub open spec fn hits(end: int, wanted: spec_fn(int) -> bool) -> Seq<int>
    decreases end,
{
    if end <= 0 {
        Seq::empty()
    } else if wanted(end - 1) {
        hits(end - 1, wanted).push(end - 1)
    } else {
        hits(end - 1, wanted)
    }
}

/// The indices of an executable list as integers.
pub open spec fn as_ints(list: Seq<usize>) -> Seq<int> {
    list.map_values(|index: usize| index as int)
}

/// A stretch without a hit adds nothing to the list.
pub proof fn lemma_hits_gap(from: int, to: int, wanted: spec_fn(int) -> bool)
    requires
        0 <= from <= to,
        forall|index: int| from <= index < to ==> !#[trigger] wanted(index),
    ensures
        hits(to, wanted) == hits(from, wanted),
    decreases to - from,
{
    if from < to {
        lemma_hits_gap(from, to - 1, wanted);
    }
}

/// The list holds exactly the wanted indices, each once, in ascending order.
pub proof fn law_hits_are_the_wanted_indices(end: int, wanted: spec_fn(int) -> bool)
    ensures
        forall|index: int| #[trigger]
            hits(end, wanted).contains(index) <==> 0 <= index < end && wanted(index),
        forall|first: int, second: int|
            0 <= first < second < hits(end, wanted).len() ==> hits(end, wanted)[first] < hits(
                end,
                wanted,
            )[second],
    decreases end,
{
    let all = hits(end, wanted);
    if end > 0 {
        law_hits_are_the_wanted_indices(end - 1, wanted);
        let before = hits(end - 1, wanted);
        if wanted(end - 1) {
            assert forall|index: int| #[trigger] all.contains(index) <==> 0 <= index < end
                && wanted(index) by {
                if index == end - 1 {
                    assert(all[all.len() - 1] == index);
                } else if before.contains(index) {
                    let at = choose|at: int| 0 <= at < before.len() && before[at] == index;
                    assert(all[at] == index);
                } else if all.contains(index) {
                    let at = choose|at: int| 0 <= at < all.len() && all[at] == index;
                    assert(before[at] == index);
                }
            }
            assert forall|first: int, second: int| 0 <= first < second < all.len() implies all[first]
                < all[second] by {
                assert(before.contains(before[first]));
            }
        }
    }
}

/// The word that eight bytes hold, least significant byte first.
pub open spec fn u64_of(bytes: Seq<u8>) -> int {
    bytes[0] + 0x100 * bytes[1] + 0x1_0000 * bytes[2] + 0x100_0000 * bytes[3] + 0x1_0000_0000
        * bytes[4] + 0x100_0000_0000 * bytes[5] + 0x1_0000_0000_0000 * bytes[6]
        + 0x100_0000_0000_0000 * bytes[7]
}

/// The two-byte value at `offset`, where the bytes reach that far.
pub open spec fn u16_at(bytes: Seq<u8>, offset: int) -> Option<u16> {
    if 0 <= offset && offset + 2 <= bytes.len() {
        Some((bytes[offset] + 0x100 * bytes[offset + 1]) as u16)
    } else {
        None
    }
}

/// The four-byte value at `offset`, where the bytes reach that far.
pub open spec fn u32_at(bytes: Seq<u8>, offset: int) -> Option<u32> {
    if 0 <= offset && offset + 4 <= bytes.len() {
        Some(
            (bytes[offset] + 0x100 * bytes[offset + 1] + 0x1_0000 * bytes[offset + 2] + 0x100_0000
                * bytes[offset + 3]) as u32,
        )
    } else {
        None
    }
}

/// The eight-byte value at `offset`, where the bytes reach that far.
pub open spec fn u64_at(bytes: Seq<u8>, offset: int) -> Option<u64> {
    if 0 <= offset && offset + 8 <= bytes.len() {
        Some(u64_of(bytes.subrange(offset, offset + 8)) as u64)
    } else {
        None
    }
}

/// Reads a little-endian `u16`.
pub fn read_u16(bytes: &[u8], offset: usize) -> (value: Option<u16>)
    ensures
        value == u16_at(bytes@, offset as int),
{
    if bytes.len() < 2 || offset > bytes.len() - 2 {
        return None;
    }
    Some(bytes[offset] as u16 + 0x100 * (bytes[offset + 1] as u16))
}

/// Reads a little-endian `u32`.
pub fn read_u32(bytes: &[u8], offset: usize) -> (value: Option<u32>)
    ensures
        value == u32_at(bytes@, offset as int),
{
    if bytes.len() < 4 || offset > bytes.len() - 4 {
        return None;
    }
    Some(
        bytes[offset] as u32 + 0x100 * (bytes[offset + 1] as u32) + 0x1_0000 * (bytes[offset
            + 2] as u32) + 0x100_0000 * (bytes[offset + 3] as u32),
    )
}

/// Reads a little-endian `u64`.
pub fn read_u64(bytes: &[u8], offset: usize) -> (value: Option<u64>)
    ensures
        value == u64_at(bytes@, offset as int),
{
    if bytes.len() < 8 || offset > bytes.len() - 8 {
        return None;
    }
    let low: u64 = bytes[offset] as u64 + 0x100 * (bytes[offset + 1] as u64) + 0x1_0000 * (
    bytes[offset + 2] as u64) + 0x100_0000 * (bytes[offset + 3] as u64);
    let high: u64 = bytes[offset + 4] as u64 + 0x100 * (bytes[offset + 5] as u64) + 0x1_0000 * (
    bytes[offset + 6] as u64) + 0x100_0000 * (bytes[offset + 7] as u64);
    assert(u64_of(bytes@.subrange(offset as int, offset + 8)) == low + 0x1_0000_0000 * high);
    Some(low + 0x1_0000_0000 * high)
}

/// Whether the byte at an index of `haystack` is `needle`.
pub open spec fn byte_is(haystack: Seq<u8>, needle: u8) -> spec_fn(int) -> bool {
    |index: int| haystack[index] == needle
}

/// Eight bytes side by side in one word, the first in the lowest lane.
spec fn packed(b0: u8, b1: u8, b2: u8, b3: u8, b4: u8, b5: u8, b6: u8, b7: u8) -> u64 {
    (b0 as u64) | ((b1 as u64) << 8) | ((b2 as u64) << 16) | ((b3 as u64) << 24) | ((b4 as u64)
        << 32) | ((b5 as u64) << 40) | ((b6 as u64) << 48) | ((b7 as u64) << 56)
}

/// The bits that a word-wide subtraction leaves set in the top of every zero lane.
spec fn zero_lanes(word: u64) -> u64 {
    ((word - 0x0101_0101_0101_0101) as u64) & !word & 0x8080_8080_8080_8080
}

/// Whether the top bit of `lane` is set.
spec fn flagged(mask: u64, lane: u64) -> bool {
    (mask >> ((8 * lane + 7) as u64)) & 1 == 1
}

/// A lane that holds the needle becomes zero and is flagged.
proof fn lemma_matching_lanes_are_flagged(
    b0: u8,
    b1: u8,
    b2: u8,
    b3: u8,
    b4: u8,
    b5: u8,
    b6: u8,
    b7: u8,
    n: u8,
)
    by (bit_vector)
    ensures
        ({
            let mask = zero_lanes(
                packed(b0, b1, b2, b3, b4, b5, b6, b7) ^ packed(n, n, n, n, n, n, n, n),
            );
            &&& mask & !0x8080_8080_8080_8080 == 0
            &&& b0 == n ==> flagged(mask, 0)
            &&& b1 == n ==> flagged(mask, 1)
            &&& b2 == n ==> flagged(mask, 2)
            &&& b3 == n ==> flagged(mask, 3)
            &&& b4 == n ==> flagged(mask, 4)
            &&& b5 == n ==> flagged(mask, 5)
            &&& b6 == n ==> flagged(mask, 6)
            &&& b7 == n ==> flagged(mask, 7)
        }),
{
}

/// The lowest set bit of a mask tops a lane, and clearing it keeps the flags of
/// the lanes above.
proof fn lemma_lowest_flag(mask: u64, bit: u64)
    by (bit_vector)
    requires
        mask & !0x8080_8080_8080_8080 == 0,
        bit < 64,
        (mask >> bit) & 1 == 1,
    ensures
        bit % 8 == 7,
        (mask & ((mask - 1) as u64)) & !0x8080_8080_8080_8080 == 0,
        mask != 0,
{
}

proof fn lemma_flags_above(mask: u64, bit: u64, lane: u64)
    by (bit_vector)
    requires
        bit < 64,
        lane < 8,
        8 * lane + 7 > bit,
        (mask >> bit) & 1 == 1,
        mask != 0,
    ensures
        flagged(mask & ((mask - 1) as u64), lane) == flagged(mask, lane),
{
}

/// Clearing the lowest set bit leaves no flag in its lane or below.
proof fn lemma_flags_below(mask: u64, bit: u64, lane: u64)
    by (bit_vector)
    requires
        bit < 64,
        lane < 8,
        8 * lane + 7 <= bit,
        (mask >> bit) & 1 == 1,
        mask << ((64 - bit) as u64) == 0,
    ensures
        !flagged(mask & ((mask - 1) as u64), lane),
{
}

proof fn lemma_no_flags(lane: u64)
    by (bit_vector)
    requires
        lane < 8,
    ensures
        !flagged(0, lane),
{
}

proof fn lemma_borrow(word: u64, taken: u64)
    by (bit_vector)
    ensures
        word >= taken ==> (word - taken) as u64 == word - taken,
        word < taken ==> (word - taken) as u64 == word - taken + 0x1_0000_0000_0000_0000,
{
}

/// Finds every offset at which `haystack` holds `needle`, a word at a time.
///
/// The borrow that a matching lane takes can flag the lane after it, so each
/// flagged lane is compared again.
pub fn byte_offsets(haystack: &[u8], needle: u8) -> (offsets: Vec<usize>)
    ensures
        as_ints(offsets@) == hits(haystack@.len() as int, byte_is(haystack@, needle)),
{
    let ghost wanted = byte_is(haystack@, needle);
    let mut offsets: Vec<usize> = Vec::new();
    let mut base: usize = 0;
    let n: u64 = needle as u64;
    let broadcast: u64 = n | (n << 8) | (n << 16) | (n << 24) | (n << 32) | (n << 40) | (n << 48)
        | (n << 56);
    assert(as_ints(offsets@) =~= hits(0, wanted));
    while haystack.len() - base >= 8
        invariant
            base <= haystack.len(),
            wanted == byte_is(haystack@, needle),
            n == needle as u64,
            broadcast == packed(needle, needle, needle, needle, needle, needle, needle, needle),
            as_ints(offsets@) == hits(base as int, wanted),
        decreases haystack.len() - base,
    {
        let word: u64 = ((haystack[base] as u64) | ((haystack[base + 1] as u64) << 8) | ((
        haystack[base + 2] as u64) << 16) | ((haystack[base + 3] as u64) << 24) | ((haystack[base
            + 4] as u64) << 32) | ((haystack[base + 5] as u64) << 40) | ((haystack[base
            + 6] as u64) << 48) | ((haystack[base + 7] as u64) << 56)) ^ broadcast;
        let mut mask: u64 = word.wrapping_sub(0x0101_0101_0101_0101) & !word
            & 0x8080_8080_8080_8080;
        let mut done: usize = 0;
        proof {
            lemma_borrow(word, 0x0101_0101_0101_0101);
            lemma_matching_lanes_are_flagged(
                haystack@[base as int],
                haystack@[base + 1],
                haystack@[base + 2],
                haystack@[base + 3],
                haystack@[base + 4],
                haystack@[base + 5],
                haystack@[base + 6],
                haystack@[base + 7],
                needle,
            );
        }
        while mask != 0
            invariant
                base + 8 <= haystack.len(),
                done <= 8,
                wanted == byte_is(haystack@, needle),
                mask & !0x8080_8080_8080_8080 == 0,
                forall|lane: u64|
                    done <= lane < 8 && haystack@[base + lane] == needle ==> #[trigger] flagged(
                        mask,
                        lane,
                    ),
                forall|lane: u64| lane < done ==> !#[trigger] flagged(mask, lane),
                as_ints(offsets@) == hits(base + done, wanted),
            decreases 8 - done,
        {
            let bit: u32 = mask.trailing_zeros();
            let lane: usize = (bit / 8) as usize;
            proof {
                vstd::std_specs::bits::axiom_u64_trailing_zeros(mask);
                lemma_lowest_flag(mask, bit as u64);
                assert(flagged(mask, lane as u64));
                assert(done <= lane < 8);
                assert forall|index: int| base + done <= index < base + lane implies !#[trigger] wanted(
                    index,
                ) by {
                    let low = (index - base) as u64;
                    assert((mask >> ((8 * low + 7) as u64)) & 1 == 0);
                    assert(!flagged(mask, low));
                }
                lemma_hits_gap(base + done, base + lane, wanted);
            }
            let ghost before = offsets@;
            if haystack[base + lane] == needle {
                offsets.push(base + lane);
                assert(as_ints(offsets@) =~= as_ints(before).push(base + lane));
            }
            proof {
                assert forall|above: u64| lane < above < 8 implies #[trigger] flagged(
                    mask & ((mask - 1) as u64),
                    above,
                ) == flagged(mask, above) by {
                    lemma_flags_above(mask, bit as u64, above);
                }
                assert forall|below: u64| below <= lane implies !#[trigger] flagged(
                    mask & ((mask - 1) as u64),
                    below,
                ) by {
                    lemma_flags_below(mask, bit as u64, below);
                }
            }
            mask = mask & (mask - 1);
            done = lane + 1;
        }
        proof {
            assert forall|index: int| base + done <= index < base + 8 implies !#[trigger] wanted(
                index,
            ) by {
                let lane = (index - base) as u64;
                lemma_no_flags(lane);
                assert(!flagged(mask, lane));
            }
            lemma_hits_gap(base + done, base + 8, wanted);
        }
        base = base + 8;
    }
    while base < haystack.len()
        invariant
            base <= haystack.len(),
            wanted == byte_is(haystack@, needle),
            as_ints(offsets@) == hits(base as int, wanted),
        decreases haystack.len() - base,
    {
        let ghost before = offsets@;
        if haystack[base] == needle {
            offsets.push(base);
            assert(as_ints(offsets@) =~= as_ints(before).push(base as int));
        }
        base = base + 1;
    }
    offsets
}

/// Whether `needle` begins at an index of `haystack`. Nothing is found in place
/// of an empty needle.
pub open spec fn occurs(haystack: Seq<u8>, needle: Seq<u8>) -> spec_fn(int) -> bool {
    |index: int|
        {
            &&& needle.len() > 0
            &&& 0 <= index
            &&& index + needle.len() <= haystack.len()
            &&& haystack.subrange(index, index + needle.len()) == needle
        }
}

/// Every index at which `needle` begins in `haystack`.
pub open spec fn occurrences(haystack: Seq<u8>, needle: Seq<u8>) -> Seq<int> {
    hits(haystack.len() as int, occurs(haystack, needle))
}

/// Compares `needle` with the bytes at `offset`.
fn matches_at(haystack: &[u8], offset: usize, needle: &[u8]) -> (equal: bool)
    requires
        offset + needle@.len() <= haystack@.len(),
    ensures
        equal == (haystack@.subrange(offset as int, offset + needle@.len()) == needle@),
{
    let ghost part = haystack@.subrange(offset as int, offset + needle@.len());
    let mut index: usize = 0;
    while index < needle.len()
        invariant
            index <= needle.len(),
            offset + needle.len() <= haystack.len(),
            part == haystack@.subrange(offset as int, offset + needle@.len()),
            forall|i: int| 0 <= i < index ==> part[i] == needle@[i],
        decreases needle.len() - index,
    {
        if haystack[offset + index] != needle[index] {
            assert(part[index as int] != needle@[index as int]);
            return false;
        }
        index = index + 1;
    }
    assert(part =~= needle@);
    true
}

/// Finds the only occurrence of `needle`, and otherwise counts the occurrences.
///
/// A name that appears more than once must never resolve to whichever copy was
/// seen first, so the whole haystack is always searched.
pub fn find_unique(haystack: &[u8], needle: &[u8]) -> (found: Result<usize, usize>)
    ensures
        match found {
            Ok(offset) => occurrences(haystack@, needle@) == seq![offset as int],
            Err(count) => occurrences(haystack@, needle@).len() == count && count != 1,
        },
{
    let ghost wanted = occurs(haystack@, needle@);
    if needle.len() == 0 || haystack.len() < needle.len() {
        proof {
            lemma_hits_gap(0, haystack@.len() as int, wanted);
        }
        return Err(0);
    }
    let limit: usize = haystack.len() - needle.len();
    let offsets = byte_offsets(haystack, needle[0]);
    let ghost firsts = hits(haystack@.len() as int, byte_is(haystack@, needle@[0]));
    let mut count: usize = 0;
    let mut unique: usize = 0;
    let mut index: usize = 0;
    let mut searched: Ghost<int> = Ghost(0);
    proof {
        law_hits_are_the_wanted_indices(haystack@.len() as int, byte_is(haystack@, needle@[0]));
    }
    while index < offsets.len()
        invariant
            index <= offsets.len(),
            wanted == occurs(haystack@, needle@),
            0 < needle@.len() <= haystack@.len(),
            limit == haystack@.len() - needle@.len(),
            as_ints(offsets@) == firsts,
            forall|i: int| #[trigger]
                firsts.contains(i) <==> 0 <= i < haystack@.len() && haystack@[i] == needle@[0],
            forall|i: int, j: int| 0 <= i < j < firsts.len() ==> firsts[i] < firsts[j],
            0 <= searched@ <= haystack.len(),
            index == 0 ==> searched@ == 0,
            index > 0 ==> searched@ == firsts[index - 1] + 1,
            count <= searched@,
            hits(searched@, wanted).len() == count,
            count > 0 ==> hits(searched@, wanted)[0] == unique,
        decreases offsets.len() - index,
    {
        let offset: usize = offsets[index];
        proof {
            assert(as_ints(offsets@)[index as int] == offset);
            assert(firsts.contains(offset as int));
            assert forall|i: int| searched@ <= i < offset implies !#[trigger] wanted(i) by {
                if wanted(i) {
                    assert(haystack@.subrange(i, i + needle@.len())[0] == needle@[0]);
                    assert(firsts.contains(i));
                    let at = choose|at: int| 0 <= at < firsts.len() && firsts[at] == i;
                    assert(index <= at ==> firsts[index as int] <= firsts[at]);
                    assert(at < index ==> firsts[at] <= firsts[index - 1]);
                }
            }
            lemma_hits_gap(searched@, offset as int, wanted);
        }
        if offset <= limit && matches_at(haystack, offset, needle) {
            if count == 0 {
                unique = offset;
            }
            count = count + 1;
        }
        index = index + 1;
        proof {
            searched@ = offset + 1;
        }
    }
    proof {
        let end = haystack@.len() as int;
        assert forall|i: int| searched@ <= i < end implies !#[trigger] wanted(i) by {
            if wanted(i) {
                assert(haystack@.subrange(i, i + needle@.len())[0] == needle@[0]);
                assert(firsts.contains(i));
                let at = choose|at: int| 0 <= at < firsts.len() && firsts[at] == i;
                assert(firsts[at] <= firsts[index - 1]);
            }
        }
        lemma_hits_gap(searched@, end, wanted);
    }
    if count == 1 {
        assert(occurrences(haystack@, needle@) =~= seq![unique as int]);
        Ok(unique)
    } else {
        Err(count)
    }
}

/// Whether an aligned word of `haystack` is `value`.
pub open spec fn word_is(haystack: Seq<u8>, value: u64) -> spec_fn(int) -> bool {
    |index: int| index % 8 == 0 && u64_at(haystack, index) == Some(value)
}

/// No word begins between two aligned indices.
proof fn lemma_words_are_aligned(haystack: Seq<u8>, value: u64, offset: int)
    requires
        0 <= offset,
        offset % 8 == 0,
    ensures
        hits(offset + 8, word_is(haystack, value)) == hits(offset + 1, word_is(haystack, value)),
{
    let wanted = word_is(haystack, value);
    assert forall|index: int| offset + 1 <= index < offset + 8 implies !#[trigger] wanted(index) by {
        assert(index % 8 == index - offset);
    }
    lemma_hits_gap(offset + 1, offset + 8, wanted);
}

/// Finds every aligned word equal to `value`.
pub fn find_u64(haystack: &[u8], value: u64) -> (offsets: Vec<usize>)
    ensures
        as_ints(offsets@) == hits(haystack@.len() as int, word_is(haystack@, value)),
{
    let ghost wanted = word_is(haystack@, value);
    let mut offsets: Vec<usize> = Vec::new();
    let mut offset: usize = 0;
    assert(as_ints(offsets@) =~= hits(0, wanted));
    while haystack.len() - offset >= 8
        invariant
            offset <= haystack.len(),
            offset % 8 == 0,
            wanted == word_is(haystack@, value),
            as_ints(offsets@) == hits(offset as int, wanted),
        decreases haystack.len() - offset,
    {
        let ghost before = offsets@;
        if read_u64(haystack, offset) == Some(value) {
            offsets.push(offset);
            assert(as_ints(offsets@) =~= as_ints(before).push(offset as int));
        }
        assert(as_ints(offsets@) == hits(offset + 1, wanted));
        proof {
            lemma_words_are_aligned(haystack@, value, offset as int);
        }
        offset = offset + 8;
    }
    proof {
        lemma_hits_gap(offset as int, haystack@.len() as int, wanted);
    }
    offsets
}

/// Whether the snapshot read from `start` holds an aligned object at an index
/// that carries both vtable pointers.
pub open spec fn carries_pair(
    bytes: Seq<u8>,
    start: int,
    primary: u64,
    secondary: u64,
    secondary_offset: int,
) -> spec_fn(int) -> bool {
    |index: int|
        {
            &&& (start + index) % 8 == 0
            &&& u64_at(bytes, index) == Some(primary)
            &&& u64_at(bytes, index + secondary_offset) == Some(secondary)
        }
}

/// The addresses of all objects in a snapshot that carry both vtable pointers.
/// A null primary pointer matches nothing.
pub open spec fn vtable_pairs(
    bytes: Seq<u8>,
    start: int,
    primary: u64,
    secondary: u64,
    secondary_offset: int,
) -> Seq<int> {
    if primary == 0 {
        Seq::empty()
    } else {
        hits(
            bytes.len() as int,
            carries_pair(bytes, start, primary, secondary, secondary_offset),
        ).map_values(|index: int| start + index)
    }
}

/// No pair begins between two aligned addresses.
proof fn lemma_pairs_are_aligned(
    bytes: Seq<u8>,
    start: int,
    primary: u64,
    secondary: u64,
    secondary_offset: int,
    offset: int,
)
    requires
        0 <= offset,
        (start + offset) % 8 == 0,
    ensures
        ({
            let wanted = carries_pair(bytes, start, primary, secondary, secondary_offset);
            hits(offset + 8, wanted) == hits(offset + 1, wanted)
        }),
{
    let wanted = carries_pair(bytes, start, primary, secondary, secondary_offset);
    assert forall|index: int| offset + 1 <= index < offset + 8 implies !#[trigger] wanted(index) by {
        assert((start + index) % 8 == index - offset);
    }
    lemma_hits_gap(offset + 1, offset + 8, wanted);
}

/// Finds the addresses in a memory snapshot that begin an object carrying both
/// halves of a resolved vtable pair.
///
/// `absolute_start` is the address that `bytes[0]` was read from. A C++ object
/// begins with a vtable pointer and is never less than eight-byte aligned, so
/// only aligned addresses are considered; `secondary_offset` itself carries no
/// alignment guarantee.
pub fn find_vtable_pairs(
    bytes: &[u8],
    absolute_start: usize,
    primary: usize,
    secondary: usize,
    secondary_offset: usize,
) -> (addresses: Vec<usize>)
    requires
        absolute_start + bytes@.len() <= usize::MAX + 1,
    ensures
        as_ints(addresses@) == vtable_pairs(
            bytes@,
            absolute_start as int,
            primary as u64,
            secondary as u64,
            secondary_offset as int,
        ),
{
    let ghost wanted = carries_pair(
        bytes@,
        absolute_start as int,
        primary as u64,
        secondary as u64,
        secondary_offset as int,
    );
    let ghost shift = |index: int| absolute_start + index;
    let mut addresses: Vec<usize> = Vec::new();
    if primary == 0 {
        assert(as_ints(addresses@) =~= Seq::empty());
        return addresses;
    }
    assert(hits(0, wanted).map_values(shift) =~= Seq::empty());
    if bytes.len() < 8 || bytes.len() - 8 < secondary_offset {
        proof {
            lemma_hits_gap(0, bytes@.len() as int, wanted);
        }
        assert(as_ints(addresses@) =~= Seq::empty());
        return addresses;
    }
    let misalignment: usize = absolute_start % 8;
    let mut offset: usize = if misalignment == 0 {
        0
    } else {
        8 - misalignment
    };
    let last: usize = bytes.len() - 8 - secondary_offset;
    proof {
        lemma_hits_gap(0, offset as int, wanted);
        assert(as_ints(addresses@) =~= hits(offset as int, wanted).map_values(shift));
    }
    while offset <= last
        invariant
            secondary_offset + 8 <= bytes.len(),
            last == bytes.len() - 8 - secondary_offset,
            offset <= bytes.len(),
            (absolute_start + offset) % 8 == 0,
            absolute_start + bytes@.len() <= usize::MAX + 1,
            wanted == carries_pair(
                bytes@,
                absolute_start as int,
                primary as u64,
                secondary as u64,
                secondary_offset as int,
            ),
            shift == (|index: int| absolute_start + index),
            as_ints(addresses@) == hits(offset as int, wanted).map_values(shift),
        decreases bytes@.len() - offset,
    {
        let ghost before = addresses@;
        let ghost listed = hits(offset as int, wanted);
        if read_u64(bytes, offset) == Some(primary as u64) && read_u64(
            bytes,
            offset + secondary_offset,
        ) == Some(secondary as u64) {
            addresses.push(absolute_start + offset);
            assert(as_ints(addresses@) =~= as_ints(before).push(absolute_start + offset));
            assert(listed.push(offset as int).map_values(shift) =~= listed.map_values(shift).push(
                absolute_start + offset,
            ));
        }
        proof {
            assert(as_ints(addresses@) == hits(offset + 1, wanted).map_values(shift));
            lemma_pairs_are_aligned(
                bytes@,
                absolute_start as int,
                primary as u64,
                secondary as u64,
                secondary_offset as int,
                offset as int,
            );
        }
        offset = offset + 8;
    }
    proof {
        lemma_hits_gap(offset as int, bytes@.len() as int, wanted);
    }
    addresses
}

/// A value is read at an offset exactly where all its bytes are there, least significant
/// byte first.
pub proof fn law_values_are_little_endian(bytes: Seq<u8>, offset: int)
    requires
        0 <= offset,
    ensures
        u16_at(bytes, offset) is Some <==> offset + 2 <= bytes.len(),
        u32_at(bytes, offset) is Some <==> offset + 4 <= bytes.len(),
        u64_at(bytes, offset) is Some <==> offset + 8 <= bytes.len(),
        offset + 2 <= bytes.len() ==> u16_at(bytes, offset)->0 % 256 == bytes[offset] && u16_at(
            bytes,
            offset,
        )->0 / 256 == bytes[offset + 1],
        offset + 4 <= bytes.len() ==> u32_at(bytes, offset)->0 % 0x1_0000 == u16_at(
            bytes,
            offset,
        )->0 && u32_at(bytes, offset)->0 / 0x1_0000 == u16_at(bytes, offset + 2)->0,
        offset + 8 <= bytes.len() ==> u64_at(bytes, offset)->0 % 0x1_0000_0000 == u32_at(
            bytes,
            offset,
        )->0 && u64_at(bytes, offset)->0 / 0x1_0000_0000 == u32_at(bytes, offset + 4)->0,
{
    if offset + 8 <= bytes.len() {
        let part = bytes.subrange(offset, offset + 8);
        assert(part[0] == bytes[offset] && part[1] == bytes[offset + 1] && part[2] == bytes[offset
            + 2] && part[3] == bytes[offset + 3] && part[4] == bytes[offset + 4] && part[5]
            == bytes[offset + 5] && part[6] == bytes[offset + 6] && part[7] == bytes[offset + 7]);
        let low = part[0] + 0x100 * part[1] + 0x1_0000 * part[2] + 0x100_0000 * part[3];
        let high = part[4] + 0x100 * part[5] + 0x1_0000 * part[6] + 0x100_0000 * part[7];
        assert(u64_of(part) == low + 0x1_0000_0000 * high);
        assert(0 <= low < 0x1_0000_0000 && 0 <= high < 0x1_0000_0000);
        assert(u64_at(bytes, offset)->0 == low + 0x1_0000_0000 * high);
        assert((low + 0x1_0000_0000 * high) % 0x1_0000_0000 == low && (low + 0x1_0000_0000 * high)
            / 0x1_0000_0000 == high);
    }
}

/// A needle is found at exactly the places where all its bytes stand, overlapping ones
/// included and none twice; an empty needle is found nowhere.
pub proof fn law_every_occurrence_is_found(haystack: Seq<u8>, needle: Seq<u8>, index: int)
    ensures
        occurrences(haystack, needle).contains(index) <==> {
            &&& needle.len() > 0
            &&& 0 <= index
            &&& index + needle.len() <= haystack.len()
            &&& forall|at: int|
                0 <= at < needle.len() ==> #[trigger] haystack[index + at] == needle[at]
        },
        occurrences(haystack, needle).no_duplicates(),
{
    let wanted = occurs(haystack, needle);
    law_hits_are_the_wanted_indices(haystack.len() as int, wanted);
    if 0 <= index && index + needle.len() <= haystack.len() {
        let part = haystack.subrange(index, index + needle.len());
        if forall|at: int| 0 <= at < needle.len() ==> #[trigger] haystack[index + at] == needle[at] {
            assert forall|at: int| 0 <= at < needle.len() implies part[at] == needle[at] by {
                assert(haystack[index + at] == needle[at]);
            }
            assert(part =~= needle);
        }
        if part == needle {
            assert forall|at: int| 0 <= at < needle.len() implies #[trigger] haystack[index + at]
                == needle[at] by {
                assert(part[at] == needle[at]);
            }
        }
    }
}

/// Exactly the aligned words with a value are found.
pub proof fn law_every_aligned_word_is_found(haystack: Seq<u8>, value: u64, index: int)
    ensures
        hits(haystack.len() as int, word_is(haystack, value)).contains(index) <==> 0 <= index
            && index % 8 == 0 && index + 8 <= haystack.len() && u64_at(haystack, index) == Some(
            value,
        ),
{
    law_hits_are_the_wanted_indices(haystack.len() as int, word_is(haystack, value));
}

/// Exactly the aligned addresses at which both vtable pointers stand at their distance are
/// found. A null primary pointer is found nowhere.
pub proof fn law_every_vtable_pair_is_found(
    bytes: Seq<u8>,
    start: int,
    primary: u64,
    secondary: u64,
    secondary_offset: int,
    address: int,
)
    requires
        0 <= start,
        0 <= secondary_offset,
    ensures
        vtable_pairs(bytes, start, primary, secondary, secondary_offset).contains(address) <==> {
            &&& primary != 0
            &&& address % 8 == 0
            &&& start <= address
            &&& address + 8 <= start + bytes.len()
            &&& u64_at(bytes, address - start) == Some(primary)
            &&& u64_at(bytes, address - start + secondary_offset) == Some(secondary)
        },
{
    if primary != 0 {
        let wanted = carries_pair(bytes, start, primary, secondary, secondary_offset);
        let listed = hits(bytes.len() as int, wanted);
        let pairs = vtable_pairs(bytes, start, primary, secondary, secondary_offset);
        let offset = address - start;
        law_hits_are_the_wanted_indices(bytes.len() as int, wanted);
        if listed.contains(offset) {
            let at = choose|at: int| 0 <= at < listed.len() && listed[at] == offset;
            assert(pairs[at] == address);
        }
        if pairs.contains(address) {
            let at = choose|at: int| 0 <= at < pairs.len() && pairs[at] == address;
            assert(listed[at] == offset);
            assert(listed.contains(offset));
        }
        assert(listed.contains(offset) <==> 0 <= offset < bytes.len() && wanted(offset));
    }
}

/// A byte is found at every index that holds it, and nowhere else.
pub proof fn law_every_byte_is_found(haystack: Seq<u8>, needle: u8, index: int)
    ensures
        hits(haystack.len() as int, byte_is(haystack, needle)).contains(index) <==> 0 <= index
            < haystack.len() && haystack[index] == needle,
{
    law_hits_are_the_wanted_indices(haystack.len() as int, byte_is(haystack, needle));
}

} // verus!
