//! Sections of a loaded PE32+ image.

use vstd::prelude::*;

use crate::search::{read_u16, read_u32, u16_at, u32_at};

verus! {

/// Marks a section whose bytes may be executed.
pub const SECTION_EXECUTABLE: u32 = 0x2000_0000;

/// The size of one section header.
pub const SECTION_HEADER_SIZE: usize = 40;

/// One mapped section, as a half-open range of module-relative addresses.
#[derive(Clone, Copy, Debug, PartialEq, Eq, Structural)]
pub struct PeSection {
    /// First address of the section.
    pub start: u32,
    /// Address behind the section.
    pub end: u32,
    /// Whether the section holds code.
    pub executable: bool,
}

impl PeSection {
    /// Whether the section holds code at `rva`.
    pub open spec fn runs(self, rva: u32) -> bool {
        self.executable && self.start <= rva < self.end
    }
}

/// The smaller of two numbers.
pub open spec fn smaller(first: int, second: int) -> int {
    if first < second {
        first
    } else {
        second
    }
}

/// The larger of two numbers.
pub open spec fn larger(first: int, second: int) -> int {
    if first < second {
        second
    } else {
        first
    }
}

/// The section that the readable header at `header` describes. A section that
/// would end beyond 32 bits ends at the last address.
pub open spec fn described_section(image: Seq<u8>, header: int) -> PeSection {
    let virtual_size = u32_at(image, header + 8)->0;
    let start = u32_at(image, header + 12)->0;
    let raw_size = u32_at(image, header + 16)->0;
    let end = start + larger(virtual_size as int, raw_size as int);
    PeSection {
        start,
        end: smaller(end, u32::MAX as int) as u32,
        executable: u32_at(image, header + 36)->0 & SECTION_EXECUTABLE != 0,
    }
}

/// The sections among the first `count` headers that are not empty and lie
/// inside the declared image, in the order of their headers.
pub open spec fn described_sections(
    image: Seq<u8>,
    table: int,
    declared: int,
    count: int,
) -> Seq<PeSection>
    decreases count,
{
    if count <= 0 {
        Seq::empty()
    } else {
        let before = described_sections(image, table, declared, count - 1);
        let section = described_section(image, table + SECTION_HEADER_SIZE * (count - 1));
        if section.start < section.end && section.end <= declared {
            before.push(section)
        } else {
            before
        }
    }
}

/// The sections of a loaded image, or what is wrong with its headers.
pub open spec fn pe_sections(image: Seq<u8>) -> Result<Seq<PeSection>, Seq<char>> {
    if u16_at(image, 0) != Some(0x5a4du16) {
        Err("DOS signature is missing"@)
    } else if u32_at(image, 0x3c) is None {
        Err("DOS header is truncated"@)
    } else {
        let nt = u32_at(image, 0x3c)->0 as int;
        let optional = nt + 24;
        if u32_at(image, nt) != Some(0x4550u32) {
            Err("NT signature is missing"@)
        } else if u16_at(image, nt + 6) is None || u16_at(image, nt + 20) is None {
            Err("COFF header is truncated"@)
        } else if u16_at(image, optional) != Some(0x20bu16) {
            Err("image is not PE32+"@)
        } else if u32_at(image, optional + 56) is None {
            Err("optional header is truncated"@)
        } else {
            let count = u16_at(image, nt + 6)->0 as int;
            let table = optional + u16_at(image, nt + 20)->0;
            let declared = u32_at(image, optional + 56)->0 as int;
            let sections = described_sections(image, table, declared, count);
            if declared > image.len() {
                Err("snapshot is shorter than SizeOfImage"@)
            } else if table > usize::MAX {
                Err("section table overflow"@)
            } else if count > 0 && table + SECTION_HEADER_SIZE * count > image.len() {
                Err("section table is truncated"@)
            } else if !exists|index: int|
                0 <= index < sections.len() && (#[trigger] sections[index]).executable {
                Err("image has no executable section"@)
            } else {
                Ok(sections)
            }
        }
    }
}

/// Reads one section header.
fn read_section(image: &[u8], header: usize) -> (section: PeSection)
    requires
        header + SECTION_HEADER_SIZE <= image.len(),
    ensures
        section == described_section(image@, header as int),
{
    let virtual_size: u32 = read_u32(image, header + 8).unwrap();
    let start: u32 = read_u32(image, header + 12).unwrap();
    let raw_size: u32 = read_u32(image, header + 16).unwrap();
    let characteristics: u32 = read_u32(image, header + 36).unwrap();
    let size: u32 = if virtual_size < raw_size {
        raw_size
    } else {
        virtual_size
    };
    PeSection {
        start,
        end: start.saturating_add(size),
        executable: characteristics & SECTION_EXECUTABLE != 0,
    }
}

/// Reads the section table of a loaded image, or says what is wrong with it.
pub fn parse_pe_sections(image: &[u8]) -> (parsed: Result<Vec<PeSection>, &'static str>)
    ensures
        match parsed {
            Ok(sections) => pe_sections(image@) == Ok::<Seq<PeSection>, Seq<char>>(sections@),
            Err(reason) => pe_sections(image@) == Err::<Seq<PeSection>, Seq<char>>(reason@),
        },
{
    let length: usize = image.len();
    if read_u16(image, 0) != Some(0x5a4d) {
        return Err("DOS signature is missing");
    }
    let nt: usize = match read_u32(image, 0x3c) {
        Some(value) => value as usize,
        None => {
            return Err("DOS header is truncated");
        },
    };
    if read_u32(image, nt) != Some(0x4550) {
        return Err("NT signature is missing");
    }
    let count: usize = match read_u16(image, nt.saturating_add(6)) {
        Some(value) => value as usize,
        None => {
            return Err("COFF header is truncated");
        },
    };
    let optional_size: usize = match read_u16(image, nt.saturating_add(20)) {
        Some(value) => value as usize,
        None => {
            return Err("COFF header is truncated");
        },
    };
    let optional: usize = nt.saturating_add(24);
    if read_u16(image, optional) != Some(0x20b) {
        return Err("image is not PE32+");
    }
    let declared: usize = match read_u32(image, optional.saturating_add(56)) {
        Some(value) => value as usize,
        None => {
            return Err("optional header is truncated");
        },
    };
    if declared > length {
        return Err("snapshot is shorter than SizeOfImage");
    }
    let table: usize = match optional.checked_add(optional_size) {
        Some(value) => value,
        None => {
            return Err("section table overflow");
        },
    };
    let mut sections: Vec<PeSection> = Vec::with_capacity(count);
    let mut executable: bool = false;
    let mut header: usize = table;
    let mut index: usize = 0;
    while index < count
        invariant
            index <= count,
            count <= 0xffff,
            header == table + SECTION_HEADER_SIZE * index,
            length == image.len(),
            index > 0 ==> header <= length,
            u16_at(image@, 0) == Some(0x5a4du16),
            u32_at(image@, 0x3c) is Some,
            ({
                let nt = u32_at(image@, 0x3c)->0 as int;
                &&& u32_at(image@, nt) == Some(0x4550u32)
                &&& u16_at(image@, nt + 6) == Some(count as u16)
                &&& u16_at(image@, nt + 20) is Some
                &&& u16_at(image@, nt + 24) == Some(0x20bu16)
                &&& u32_at(image@, nt + 24 + 56) == Some(declared as u32)
                &&& table == nt + 24 + u16_at(image@, nt + 20)->0
            }),
            declared <= u32::MAX,
            declared <= image@.len(),
            sections@ == described_sections(image@, table as int, declared as int, index as int),
            executable == exists|at: int|
                0 <= at < sections@.len() && (#[trigger] sections@[at]).executable,
        decreases count - index,
    {
        if length < SECTION_HEADER_SIZE || header > length - SECTION_HEADER_SIZE {
            assert(pe_sections(image@) == Err::<Seq<PeSection>, Seq<char>>(
                "section table is truncated"@,
            ));
            return Err("section table is truncated");
        }
        let section = read_section(image, header);
        let ghost before = sections@;
        if section.start < section.end && section.end as usize <= declared {
            sections.push(section);
            proof {
                if section.executable {
                    assert(sections@[before.len() as int].executable);
                }
                assert forall|at: int| 0 <= at < before.len() implies #[trigger] sections@[at]
                    == before[at] by {}
                if executable {
                    let at = choose|at: int|
                        0 <= at < before.len() && (#[trigger] before[at]).executable;
                    assert(sections@[at].executable);
                }
            }
            executable = executable || section.executable;
        }
        header = header + SECTION_HEADER_SIZE;
        index = index + 1;
    }
    if !executable {
        return Err("image has no executable section");
    }
    Ok(sections)
}

/// Whether a section holds code at `rva`.
pub open spec fn runs_at(sections: Seq<PeSection>, rva: u32) -> bool {
    exists|index: int| 0 <= index < sections.len() && (#[trigger] sections[index]).runs(rva)
}

/// The first section that holds code at `rva`.
pub open spec fn first_running(sections: Seq<PeSection>, rva: u32) -> Option<PeSection>
    decreases sections.len(),
{
    if sections.len() == 0 {
        None
    } else if sections[0].runs(rva) {
        Some(sections[0])
    } else {
        first_running(sections.skip(1), rva)
    }
}

/// Code is found at an address exactly where some section holds code there.
pub proof fn lemma_first_running(sections: Seq<PeSection>, rva: u32)
    ensures
        first_running(sections, rva) is Some <==> runs_at(sections, rva),
        first_running(sections, rva) matches Some(section) ==> section.runs(rva),
    decreases sections.len(),
{
    if sections.len() > 0 {
        let rest = sections.skip(1);
        lemma_first_running(rest, rva);
        if sections[0].runs(rva) {
        } else {
            if runs_at(sections, rva) {
                let at = choose|index: int|
                    0 <= index < sections.len() && (#[trigger] sections[index]).runs(rva);
                assert(rest[at - 1].runs(rva));
            }
            if runs_at(rest, rva) {
                let at = choose|index: int|
                    0 <= index < rest.len() && (#[trigger] rest[index]).runs(rva);
                assert(sections[at + 1].runs(rva));
            }
        }
    }
}

/// The end of the first section that holds code at `rva`.
pub fn executable_end(sections: &[PeSection], rva: u32) -> (end: Option<u32>)
    ensures
        match first_running(sections@, rva) {
            Some(section) => end == Some(section.end),
            None => end is None,
        },
        end is Some <==> runs_at(sections@, rva),
{
    let mut index: usize = 0;
    assert(sections@.skip(0) =~= sections@);
    proof {
        lemma_first_running(sections@, rva);
    }
    while index < sections.len()
        invariant
            index <= sections.len(),
            first_running(sections@, rva) == first_running(sections@.skip(index as int), rva),
            first_running(sections@, rva) is Some <==> runs_at(sections@, rva),
        decreases sections.len() - index,
    {
        let section = sections[index];
        assert(sections@.skip(index as int)[0] == section);
        if section.executable && section.start <= rva && rva < section.end {
            return Some(section.end);
        }
        assert(sections@.skip(index as int).skip(1) =~= sections@.skip(index + 1));
        index = index + 1;
    }
    None
}

/// Whether a section holds code at `rva`.
pub fn rva_is_executable(sections: &[PeSection], rva: u32) -> (found: bool)
    ensures
        found == runs_at(sections@, rva),
{
    executable_end(sections, rva).is_some()
}

/// A section covers the larger of its two sizes from its first address on, cut off at
/// the last address, and holds code exactly where its header has that bit set.
pub proof fn law_a_section_covers_its_larger_size(image: Seq<u8>, header: int, rva: u32)
    requires
        0 <= header,
        header + 40 <= image.len(),
    ensures
        ({
            let section = described_section(image, header);
            let virtual_size = u32_at(image, header + 8)->0;
            let start = u32_at(image, header + 12)->0;
            let raw_size = u32_at(image, header + 16)->0;
            &&& section.start == start
            &&& rva < u32::MAX ==> (section.start <= rva < section.end <==> start <= rva && (rva
                < start + virtual_size || rva < start + raw_size))
            &&& section.executable <==> u32_at(image, header + 36)->0 / 0x2000_0000 % 2 == 1
        }),
{
    let bits = u32_at(image, header + 36)->0;
    assert((bits & 0x2000_0000 != 0) == (bits / 0x2000_0000 % 2 == 1)) by (bit_vector);
}

/// A section is listed exactly where one of the headers describes it, it is not empty and
/// it lies inside the declared image.
pub proof fn law_listed_sections_are_those_described(
    image: Seq<u8>,
    table: int,
    declared: int,
    count: int,
    section: PeSection,
)
    ensures
        described_sections(image, table, declared, count).contains(section) <==> section.start
            < section.end && section.end <= declared && exists|index: int|
            0 <= index < count && #[trigger] described_header(image, table, index) == section,
    decreases count,
{
    let all = described_sections(image, table, declared, count);
    if count > 0 {
        law_listed_sections_are_those_described(image, table, declared, count - 1, section);
        let before = described_sections(image, table, declared, count - 1);
        let last = described_header(image, table, count - 1);
        if last.start < last.end && last.end <= declared {
            assert(all == before.push(last));
            if before.contains(section) {
                let at = choose|at: int| 0 <= at < before.len() && before[at] == section;
                assert(all[at] == section);
            }
            if all.contains(section) && section != last {
                let at = choose|at: int| 0 <= at < all.len() && all[at] == section;
                assert(before[at] == section);
            }
            assert(all[before.len() as int] == last);
        }
        if exists|index: int|
            0 <= index < count && #[trigger] described_header(image, table, index) == section {
            let index = choose|index: int|
                0 <= index < count && #[trigger] described_header(image, table, index) == section;
            assert(index < count - 1 || section == last);
        }
    }
}

/// The section that the header with a number describes.
pub open spec fn described_header(image: Seq<u8>, table: int, index: int) -> PeSection {
    described_section(image, table + 40 * index)
}

/// An image with these headers is accepted: the DOS and NT signatures, the PE32+ mark, a
/// declared size that the snapshot holds, the whole section table, and some code. Nothing
/// else is asked of it, and the sections are those of its table.
pub proof fn law_sound_headers_are_accepted(image: Seq<u8>, nt: int, count: int, table: int)
    requires
        u16_at(image, 0) == Some(0x5a4du16),
        u32_at(image, 0x3c) is Some,
        nt == u32_at(image, 0x3c)->0,
        u32_at(image, nt) == Some(0x4550u32),
        u16_at(image, nt + 6) is Some,
        count == u16_at(image, nt + 6)->0,
        u16_at(image, nt + 20) is Some,
        table == nt + 24 + u16_at(image, nt + 20)->0,
        u16_at(image, nt + 24) == Some(0x20bu16),
        u32_at(image, nt + 80) is Some,
        u32_at(image, nt + 80)->0 <= image.len(),
        table <= usize::MAX,
        table + 40 * count <= image.len(),
        exists|section: PeSection|
            section.executable && #[trigger] described_sections(
                image,
                table,
                u32_at(image, nt + 80)->0 as int,
                count,
            ).contains(section),
    ensures
        pe_sections(image) == Ok::<Seq<PeSection>, Seq<char>>(
            described_sections(image, table, u32_at(image, nt + 80)->0 as int, count),
        ),
{
    let sections = described_sections(image, table, u32_at(image, nt + 80)->0 as int, count);
    let section = choose|section: PeSection|
        section.executable && #[trigger] sections.contains(section);
    let at = choose|at: int| 0 <= at < sections.len() && sections[at] == section;
    assert(sections[at].executable);
}

/// An image that is accepted has sound headers and some code.
pub proof fn law_an_accepted_image_is_sound(image: Seq<u8>)
    requires
        pe_sections(image) is Ok,
    ensures
        ({
            let nt = u32_at(image, 0x3c)->0 as int;
            let table = nt + 24 + u16_at(image, nt + 20)->0;
            let count = u16_at(image, nt + 6)->0 as int;
            let sections = pe_sections(image)->Ok_0;
            &&& u16_at(image, 0) == Some(0x5a4du16)
            &&& u32_at(image, nt) == Some(0x4550u32)
            &&& u16_at(image, nt + 24) == Some(0x20bu16)
            &&& u32_at(image, nt + 80) is Some
            &&& u32_at(image, nt + 80)->0 <= image.len()
            &&& sections == described_sections(
                image,
                table,
                u32_at(image, nt + 80)->0 as int,
                count,
            )
            &&& exists|index: int|
                0 <= index < sections.len() && (#[trigger] sections[index]).executable
        }),
{
    let optional = u32_at(image, 0x3c)->0 as int + 24;
    assert(u32_at(image, optional + 56) == u32_at(image, optional - 24 + 80));
}

/// Each reason for which an image is refused holds of it.
pub proof fn law_a_refused_image_has_that_fault(image: Seq<u8>)
    requires
        pe_sections(image) is Err,
    ensures
        ({
            let nt = u32_at(image, 0x3c)->0 as int;
            let table = nt + 24 + u16_at(image, nt + 20)->0;
            let count = u16_at(image, nt + 6)->0 as int;
            let reason = pe_sections(image)->Err_0;
            ||| reason == "DOS signature is missing"@ && u16_at(image, 0) != Some(0x5a4du16)
            ||| reason == "DOS header is truncated"@ && image.len() < 0x40
            ||| reason == "NT signature is missing"@ && u32_at(image, nt) != Some(0x4550u32)
            ||| reason == "COFF header is truncated"@ && image.len() < nt + 22
            ||| reason == "image is not PE32+"@ && u16_at(image, nt + 24) != Some(0x20bu16)
            ||| reason == "optional header is truncated"@ && image.len() < nt + 84
            ||| reason == "snapshot is shorter than SizeOfImage"@ && u32_at(image, nt + 80)->0
                > image.len()
            ||| reason == "section table overflow"@ && table > usize::MAX
            ||| reason == "section table is truncated"@ && table + 40 * count > image.len()
            ||| reason == "image has no executable section"@ && forall|section: PeSection|
                #[trigger] described_sections(
                    image,
                    table,
                    u32_at(image, nt + 80)->0 as int,
                    count,
                ).contains(section) ==> !section.executable
        }),
{
    let nt = u32_at(image, 0x3c)->0 as int;
    let optional = nt + 24;
    let reason = pe_sections(image)->Err_0;
    assert(u32_at(image, optional + 56) == u32_at(image, nt + 80));
    if u16_at(image, 0) != Some(0x5a4du16) {
    } else if u32_at(image, 0x3c) is None {
    } else if u32_at(image, nt) != Some(0x4550u32) {
    } else if u16_at(image, nt + 6) is None || u16_at(image, nt + 20) is None {
        assert(reason == "COFF header is truncated"@);
    } else if u16_at(image, optional) != Some(0x20bu16) {
    } else if u32_at(image, optional + 56) is None {
        assert(reason == "optional header is truncated"@);
    } else {
        let count = u16_at(image, nt + 6)->0 as int;
        let table = optional + u16_at(image, nt + 20)->0;
        let declared = u32_at(image, optional + 56)->0 as int;
        let sections = described_sections(image, table, declared, count);
        if declared <= image.len() && table <= usize::MAX && !(count > 0 && table + 40 * count
            > image.len()) {
            assert forall|section: PeSection| #[trigger] sections.contains(
                section,
            ) implies !section.executable by {
                let at = choose|at: int| 0 <= at < sections.len() && sections[at] == section;
                assert(!sections[at].executable);
            }
            assert(reason == "image has no executable section"@);
        }
    }
}

/// Code is found at an address exactly where an executable section covers it, and in the
/// first one that does.
pub proof fn law_code_is_found_in_the_first_section(sections: Seq<PeSection>, rva: u32, index: int)
    requires
        0 <= index < sections.len(),
        sections[index].executable,
        sections[index].start <= rva < sections[index].end,
        forall|before: int|
            0 <= before < index ==> !((#[trigger] sections[before]).executable
                && sections[before].start <= rva < sections[before].end),
    ensures
        first_running(sections, rva) == Some(sections[index]),
        runs_at(sections, rva),
    decreases index,
{
    if index > 0 {
        let rest = sections.skip(1);
        assert(!sections[0].runs(rva));
        assert forall|before: int| 0 <= before < index - 1 implies !((
        #[trigger] rest[before]).executable && rest[before].start <= rva < rest[before].end) by {
            assert(rest[before] == sections[before + 1]);
        }
        law_code_is_found_in_the_first_section(rest, rva, index - 1);
    }
    assert(sections[index].runs(rva));
}

/// Where no executable section covers an address, no code is found there.
pub proof fn law_no_code_is_found_outside_the_sections(sections: Seq<PeSection>, rva: u32)
    requires
        forall|index: int|
            0 <= index < sections.len() ==> !((#[trigger] sections[index]).executable
                && sections[index].start <= rva < sections[index].end),
    ensures
        !runs_at(sections, rva),
        first_running(sections, rva) is None,
{
    lemma_first_running(sections, rva);
}

/// The smaller of two numbers is below neither, the larger above neither, and each is one
/// of them.
pub proof fn law_smaller_and_larger_are_extremes(first: int, second: int)
    ensures
        smaller(first, second) <= first && smaller(first, second) <= second,
        smaller(first, second) == first || smaller(first, second) == second,
        larger(first, second) >= first && larger(first, second) >= second,
        larger(first, second) == first || larger(first, second) == second,
{
}

} // verus!
