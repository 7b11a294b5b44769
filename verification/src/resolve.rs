//! Resolution of the discovery scheduler's layout from a module snapshot.
//!
//! The private object layout changes between builds, so nothing here rests on
//! build numbers or fixed addresses. The class's RTTI name leads to its
//! complete-object locators, those to its vtables, and the virtual methods are
//! inspected for the scheduler's instruction sequence. Whatever cannot be proven
//! unique is an error.

use vstd::prelude::*;
use vstd::string::*;

use crate::pe::{
    first_running, parse_pe_sections, pe_sections, runs_at, rva_is_executable, PeSection,
};
use crate::scheduler::{
    analyze_scheduler_method, law_only_unambiguous_fields_are_derived, method_end, method_fields,
    method_instructions, schedules, SchedulerFields,
};
use crate::search::{as_ints, find_u64, find_unique, hits, law_hits_are_the_wanted_indices};
use crate::search::{lemma_hits_gap, occurrences, read_u32, read_u64, u32_at, u64_at, word_is};
use crate::text::{decimal, push_decimal};

verus! {

/// Where the name stands in an RTTI type descriptor.
pub const TYPE_DESCRIPTOR_NAME_OFFSET: usize = 16;

/// The size of a complete-object locator.
pub const COMPLETE_OBJECT_LOCATOR_SIZE: usize = 24;

/// The largest offset of a secondary base that is believed.
pub const MAX_SECONDARY_OFFSET: u32 = 0x100;

/// How many entries of a vtable are inspected.
pub const MAX_VTABLE_METHODS: usize = 8;

/// Module-relative values needed to find and trigger HID discovery.
#[derive(Clone, Copy, Debug, Eq)]
pub struct RecoveryLayout {
    /// RVA of the HID thread's primary vtable.
    pub primary_vtable_rva: u32,
    /// RVA of the HID thread's secondary vtable.
    pub secondary_vtable_rva: u32,
    /// Offset of the secondary base inside the complete object.
    pub secondary_object_offset: u32,
    /// RVA of the virtual method that schedules controller discovery.
    pub worker_method_rva: u32,
    /// Offset of the discovery deadline from the complete object.
    pub discovery_deadline_offset: u32,
    /// Offset of the discovery counter from the complete object.
    pub discovery_counter_offset: u32,
}

impl PartialEq for RecoveryLayout {
    fn eq(&self, other: &RecoveryLayout) -> (equal: bool) {
        self.primary_vtable_rva == other.primary_vtable_rva && self.secondary_vtable_rva == other.secondary_vtable_rva && self.secondary_object_offset == other.secondary_object_offset && self.worker_method_rva == other.worker_method_rva && self.discovery_deadline_offset == other.discovery_deadline_offset && self.discovery_counter_offset == other.discovery_counter_offset
    }
}

impl vstd::std_specs::cmp::PartialEqSpecImpl for RecoveryLayout {
    open spec fn obeys_eq_spec() -> bool {
        true
    }

    open spec fn eq_spec(&self, other: &RecoveryLayout) -> bool {
        &&& self.primary_vtable_rva == other.primary_vtable_rva
        &&& self.secondary_vtable_rva == other.secondary_vtable_rva
        &&& self.secondary_object_offset == other.secondary_object_offset
        &&& self.worker_method_rva == other.worker_method_rva
        &&& self.discovery_deadline_offset == other.discovery_deadline_offset
        &&& self.discovery_counter_offset == other.discovery_counter_offset
    }
}

/// Why a module snapshot could not be resolved safely.
#[derive(Clone, Debug, PartialEq, Eq)]
pub enum ResolveError {
    /// The bytes are not a supported loaded PE32+ image.
    InvalidPe(&'static str),
    /// The RTTI type name was absent or occurred more than once.
    RttiNameCount(usize),
    /// No valid complete-object locator referenced the type descriptor.
    CompleteObjectLocatorNotFound,
    /// A required vtable could not be proven unique.
    VtableNotUnique(&'static str),
    /// No unique virtual method carried the scheduler's semantics.
    SchedulerNotUnique(usize),
}

/// The contents of a [`ResolveError`].
pub enum ResolveFailure {
    /// See [`ResolveError::InvalidPe`].
    InvalidPe(Seq<char>),
    /// See [`ResolveError::RttiNameCount`].
    RttiNameCount(nat),
    /// See [`ResolveError::CompleteObjectLocatorNotFound`].
    CompleteObjectLocatorNotFound,
    /// See [`ResolveError::VtableNotUnique`].
    VtableNotUnique(Seq<char>),
    /// See [`ResolveError::SchedulerNotUnique`].
    SchedulerNotUnique(nat),
}

impl View for ResolveError {
    type V = ResolveFailure;

    open spec fn view(&self) -> ResolveFailure {
        match *self {
            ResolveError::InvalidPe(reason) => ResolveFailure::InvalidPe(reason@),
            ResolveError::RttiNameCount(count) => ResolveFailure::RttiNameCount(count as nat),
            ResolveError::CompleteObjectLocatorNotFound =>
                ResolveFailure::CompleteObjectLocatorNotFound,
            ResolveError::VtableNotUnique(kind) => ResolveFailure::VtableNotUnique(kind@),
            ResolveError::SchedulerNotUnique(count) => ResolveFailure::SchedulerNotUnique(
                count as nat,
            ),
        }
    }
}

impl ResolveFailure {
    /// The failure as a sentence for people.
    pub open spec fn text(self) -> Seq<char> {
        match self {
            ResolveFailure::InvalidPe(reason) => "invalid steamclient PE image: "@ + reason,
            ResolveFailure::RttiNameCount(count) =>
                "CHIDIOThread RTTI name was expected once, but occurred "@ + decimal(count)
                    + " times"@,
            ResolveFailure::CompleteObjectLocatorNotFound =>
                "CHIDIOThread RTTI has no valid MSVC complete-object locator"@,
            ResolveFailure::VtableNotUnique(kind) => "CHIDIOThread "@ + kind
                + " vtable was not unique"@,
            ResolveFailure::SchedulerNotUnique(count) =>
                "controller discovery scheduler was expected once, but matched "@ + decimal(count)
                    + " methods"@,
        }
    }
}

impl ResolveError {
    /// The error as a sentence for people.
    pub fn message(&self) -> (text: String)
        ensures
            text@ == self@.text(),
    {
        let mut text = String::new();
        match self {
            ResolveError::InvalidPe(reason) => {
                text.append("invalid steamclient PE image: ");
                text.append(reason);
                assert(text@ =~= self@.text());
            },
            ResolveError::RttiNameCount(count) => {
                text.append("CHIDIOThread RTTI name was expected once, but occurred ");
                push_decimal(&mut text, *count as u64);
                text.append(" times");
                assert(text@ =~= self@.text());
            },
            ResolveError::CompleteObjectLocatorNotFound => {
                text.append("CHIDIOThread RTTI has no valid MSVC complete-object locator");
                assert(text@ =~= self@.text());
            },
            ResolveError::VtableNotUnique(kind) => {
                text.append("CHIDIOThread ");
                text.append(kind);
                text.append(" vtable was not unique");
                assert(text@ =~= self@.text());
            },
            ResolveError::SchedulerNotUnique(count) => {
                text.append("controller discovery scheduler was expected once, but matched ");
                push_decimal(&mut text, *count as u64);
                text.append(" methods");
                assert(text@ =~= self@.text());
            },
        }
        text
    }
}

/// One vtable of the class, and the base that it belongs to.
#[derive(Clone, Copy, Debug, Eq)]
pub struct VtableCandidate {
    /// Offset of the base inside the complete object.
    pub object_offset: u32,
    /// RVA of the vtable's first entry.
    pub vtable_rva: u32,
}

impl PartialEq for VtableCandidate {
    fn eq(&self, other: &VtableCandidate) -> (equal: bool) {
        self.object_offset == other.object_offset && self.vtable_rva == other.vtable_rva
    }
}

impl vstd::std_specs::cmp::PartialEqSpecImpl for VtableCandidate {
    open spec fn obeys_eq_spec() -> bool {
        true
    }

    open spec fn eq_spec(&self, other: &VtableCandidate) -> bool {
        &&& self.object_offset == other.object_offset
        &&& self.vtable_rva == other.vtable_rva
    }
}

/// A list with an item added at its end unless the list holds it already.
pub open spec fn with_new<T>(list: Seq<T>, item: T) -> Seq<T> {
    if list.contains(item) {
        list
    } else {
        list.push(item)
    }
}

/// Whether a complete-object locator for the type descriptor stands at an index.
///
/// Its descriptor field alone is specific to the class; the signature, the zero
/// field, the self-reference and the bounded fields confirm it.
pub open spec fn locator_at(image: Seq<u8>, type_descriptor: u32) -> spec_fn(int) -> bool {
    |index: int|
        {
            &&& index % 4 == 0
            &&& index <= u32::MAX
            &&& index + COMPLETE_OBJECT_LOCATOR_SIZE < image.len()
            &&& u32_at(image, index) == Some(1u32)
            &&& u32_at(image, index + 4)->0 <= MAX_SECONDARY_OFFSET
            &&& u32_at(image, index + 8) == Some(0u32)
            &&& u32_at(image, index + 12) == Some(type_descriptor)
            &&& u32_at(image, index + 16)->0 < image.len()
            &&& u32_at(image, index + 20) == Some(index as u32)
        }
}

/// The locators of the class in ascending order, each with its base's offset.
pub open spec fn locators(image: Seq<u8>, type_descriptor: u32) -> Seq<(u32, u32)> {
    hits(image.len() as int, locator_at(image, type_descriptor)).map_values(
        |index: int| (index as u32, u32_at(image, index + 4)->0),
    )
}

/// Reads the locator at `offset`, where one stands there.
fn read_locator(image: &[u8], offset: usize, type_descriptor: u32) -> (locator: Option<(u32, u32)>)
    requires
        offset % 4 == 0,
        offset <= u32::MAX,
        offset + COMPLETE_OBJECT_LOCATOR_SIZE < image.len(),
    ensures
        match locator {
            Some(found) => locator_at(image@, type_descriptor)(offset as int) && found == (
                offset as u32,
                u32_at(image@, offset + 4)->0,
            ),
            None => !locator_at(image@, type_descriptor)(offset as int),
        },
{
    if read_u32(image, offset + 12) != Some(type_descriptor) || read_u32(image, offset) != Some(1)
        || read_u32(image, offset + 8) != Some(0) || read_u32(image, offset + 20) != Some(
        offset as u32,
    ) {
        return None;
    }
    let object_offset: u32 = read_u32(image, offset + 4).unwrap();
    let class_descriptor: u32 = read_u32(image, offset + 16).unwrap();
    if object_offset <= MAX_SECONDARY_OFFSET && (class_descriptor as usize) < image.len() {
        Some((offset as u32, object_offset))
    } else {
        None
    }
}

/// No locator stands between aligned indices, nor beyond the reach of an RVA, nor
/// where the image ends inside it.
proof fn lemma_no_locator(image: Seq<u8>, type_descriptor: u32, from: int, to: int)
    requires
        0 <= from <= to,
        forall|index: int|
            from <= index < to ==> #[trigger] (index % 4) != 0 || index > u32::MAX || index
                + COMPLETE_OBJECT_LOCATOR_SIZE >= image.len(),
    ensures
        hits(to, locator_at(image, type_descriptor)) == hits(
            from,
            locator_at(image, type_descriptor),
        ),
{
    let wanted = locator_at(image, type_descriptor);
    assert forall|index: int| from <= index < to implies !#[trigger] wanted(index) by {
        assert(index % 4 != 0 || index > u32::MAX || index + COMPLETE_OBJECT_LOCATOR_SIZE
            >= image.len());
    }
    lemma_hits_gap(from, to, wanted);
}

/// Finds the complete-object locators that reference a type descriptor.
pub fn find_complete_object_locators(image: &[u8], type_descriptor: u32) -> (found: Vec<(u32, u32)>)
    ensures
        found@ == locators(image@, type_descriptor),
{
    let ghost wanted = locator_at(image@, type_descriptor);
    let ghost listed = |index: int| (index as u32, u32_at(image@, index + 4)->0);
    let length: usize = image.len();
    let mut found: Vec<(u32, u32)> = Vec::new();
    let mut offset: usize = 0;
    assert(found@ =~= hits(0, wanted).map_values(listed));
    while length - offset > COMPLETE_OBJECT_LOCATOR_SIZE && offset as u64 <= 0xFFFF_FFFF
        invariant
            length == image.len(),
            offset <= length,
            offset % 4 == 0,
            wanted == locator_at(image@, type_descriptor),
            listed == (|index: int| (index as u32, u32_at(image@, index + 4)->0)),
            found@ == hits(offset as int, wanted).map_values(listed),
        decreases length - offset,
    {
        let ghost before = hits(offset as int, wanted);
        if let Some(locator) = read_locator(image, offset, type_descriptor) {
            found.push(locator);
            assert(before.push(offset as int).map_values(listed) =~= before.map_values(listed).push(
                locator,
            ));
        }
        assert(found@ == hits(offset + 1, wanted).map_values(listed));
        proof {
            lemma_no_locator(image@, type_descriptor, offset + 1, offset + 4);
        }
        offset = offset + 4;
    }
    proof {
        lemma_no_locator(image@, type_descriptor, offset as int, length as int);
    }
    found
}

/// The module-relative address of an absolute address, where it has one.
pub open spec fn rva_of(module_base: u64, address: u64) -> Option<u32> {
    if module_base <= address && address - module_base <= u32::MAX {
        Some((address - module_base) as u32)
    } else {
        None
    }
}

/// The module-relative address that the word at `offset` points to.
pub open spec fn pointed_rva(module_base: u64, image: Seq<u8>, offset: int) -> Option<u32> {
    match u64_at(image, offset) {
        Some(address) => rva_of(module_base, address),
        None => None,
    }
}

/// Whether the word at `offset` points to code.
pub open spec fn points_to_code(
    module_base: u64,
    image: Seq<u8>,
    sections: Seq<PeSection>,
    offset: int,
) -> bool {
    pointed_rva(module_base, image, offset) matches Some(rva) && runs_at(sections, rva)
}

/// Reads the module-relative address that the word at `offset` points to.
fn read_rva(module_base: usize, image: &[u8], offset: usize) -> (rva: Option<u32>)
    ensures
        rva == pointed_rva(module_base as u64, image@, offset as int),
{
    match read_u64(image, offset) {
        Some(address) => {
            let base: u64 = module_base as u64;
            if base <= address && address - base <= 0xFFFF_FFFF {
                Some((address - base) as u32)
            } else {
                None
            }
        },
        None => None,
    }
}

/// Whether the first entry of a vtable points to code.
pub fn vtable_has_executable_entry(
    module_base: usize,
    image: &[u8],
    sections: &[PeSection],
    vtable_rva: u32,
) -> (found: bool)
    ensures
        found == points_to_code(module_base as u64, image@, sections@, vtable_rva as int),
{
    match read_rva(module_base, image, vtable_rva as usize) {
        Some(rva) => rva_is_executable(sections, rva),
        None => false,
    }
}

/// `list` with the vtables that follow the given references to one locator.
pub open spec fn with_vtables(
    list: Seq<VtableCandidate>,
    module_base: u64,
    image: Seq<u8>,
    sections: Seq<PeSection>,
    object_offset: u32,
    references: Seq<int>,
) -> Seq<VtableCandidate>
    decreases references.len(),
{
    if references.len() == 0 {
        list
    } else {
        let before = with_vtables(
            list,
            module_base,
            image,
            sections,
            object_offset,
            references.drop_last(),
        );
        let vtable = references.last() + 8;
        if vtable <= u32::MAX && points_to_code(module_base, image, sections, vtable) {
            with_new(before, VtableCandidate { object_offset, vtable_rva: vtable as u32 })
        } else {
            before
        }
    }
}

/// The vtables that follow the references to the given locators.
pub open spec fn vtables_of(
    module_base: u64,
    image: Seq<u8>,
    sections: Seq<PeSection>,
    locators: Seq<(u32, u32)>,
) -> Seq<VtableCandidate>
    decreases locators.len(),
{
    if locators.len() == 0 {
        Seq::empty()
    } else {
        let (locator, object_offset) = locators.last();
        with_vtables(
            vtables_of(module_base, image, sections, locators.drop_last()),
            module_base,
            image,
            sections,
            object_offset,
            hits(image.len() as int, word_is(image, (module_base + locator) as u64)),
        )
    }
}

/// Comparing two vtables or two layouts tells whether they are the same.
proof fn lemma_items_are_told_apart()
    ensures
        vstd::laws_eq::obeys_concrete_eq::<VtableCandidate>(),
        vstd::laws_eq::obeys_concrete_eq::<RecoveryLayout>(),
{
    reveal(vstd::laws_eq::obeys_concrete_eq);
}

/// Adds an item to the list unless the list holds it.
fn push_new<T: PartialEq>(list: &mut Vec<T>, item: T)
    requires
        vstd::laws_eq::obeys_concrete_eq::<T>(),
    ensures
        final(list)@ == with_new(old(list)@, item),
{
    reveal(vstd::laws_eq::obeys_concrete_eq);
    let mut index: usize = 0;
    while index < list.len()
        invariant
            index <= list.len(),
            list@ == old(list)@,
            vstd::laws_eq::obeys_concrete_eq::<T>(),
            forall|before: int| 0 <= before < index ==> list@[before] != item,
        decreases list.len() - index,
    {
        reveal(vstd::laws_eq::obeys_concrete_eq);
        if list[index] == item {
            assert(list@[index as int] == item);
            return;
        }
        index = index + 1;
    }
    list.push(item);
}

/// Adds the vtables that follow the references to one locator.
fn push_vtables(
    list: &mut Vec<VtableCandidate>,
    module_base: usize,
    image: &[u8],
    sections: &[PeSection],
    object_offset: u32,
    references: &[usize],
)
    ensures
        final(list)@ == with_vtables(
            old(list)@,
            module_base as u64,
            image@,
            sections@,
            object_offset,
            as_ints(references@),
        ),
{
    let ghost all = as_ints(references@);
    let mut index: usize = 0;
    assert(all.take(0) =~= Seq::empty());
    while index < references.len()
        invariant
            index <= references.len(),
            all == as_ints(references@),
            list@ == with_vtables(
                old(list)@,
                module_base as u64,
                image@,
                sections@,
                object_offset,
                all.take(index as int),
            ),
        decreases references.len() - index,
    {
        let reference: usize = references[index];
        proof {
            assert(all[index as int] == reference);
            assert(all.take(index + 1).drop_last() =~= all.take(index as int));
            assert(all.take(index + 1).last() == reference);
        }
        if reference as u64 <= 0xFFFF_FFF7 {
            let vtable_rva: u32 = reference as u32 + 8;
            if vtable_has_executable_entry(module_base, image, sections, vtable_rva) {
                proof {
                    lemma_items_are_told_apart();
                }
                push_new(list, VtableCandidate { object_offset, vtable_rva });
            }
        }
        index = index + 1;
    }
    assert(all.take(all.len() as int) =~= all);
}

/// Finds the vtables of the class, or fails where a locator has no address.
pub fn find_vtables(
    module_base: usize,
    image: &[u8],
    sections: &[PeSection],
    locators: &[(u32, u32)],
) -> (vtables: Option<Vec<VtableCandidate>>)
    ensures
        match vtables {
            Some(list) => {
                &&& list@ == vtables_of(module_base as u64, image@, sections@, locators@)
                &&& forall|index: int|
                    0 <= index < locators@.len() ==> module_base + (#[trigger] locators@[index]).0
                        <= u64::MAX
            },
            None => exists|index: int|
                0 <= index < locators@.len() && module_base + (#[trigger] locators@[index]).0
                    > u64::MAX,
        },
{
    let mut list: Vec<VtableCandidate> = Vec::new();
    let mut index: usize = 0;
    assert(locators@.take(0) =~= Seq::empty());
    while index < locators.len()
        invariant
            index <= locators.len(),
            list@ == vtables_of(
                module_base as u64,
                image@,
                sections@,
                locators@.take(index as int),
            ),
            forall|before: int|
                0 <= before < index ==> module_base + (#[trigger] locators@[before]).0 <= u64::MAX,
        decreases locators.len() - index,
    {
        let (locator, object_offset) = locators[index];
        proof {
            assert(locators@.take(index + 1).drop_last() =~= locators@.take(index as int));
            assert(locators@.take(index + 1).last() == locators@[index as int]);
        }
        match (module_base as u64).checked_add(locator as u64) {
            Some(absolute) => {
                let references = find_u64(image, absolute);
                push_vtables(&mut list, module_base, image, sections, object_offset, &references);
            },
            None => {
                assert(module_base + locators@[index as int].0 > u64::MAX);
                return None;
            },
        }
        index = index + 1;
    }
    assert(locators@.take(locators@.len() as int) =~= locators@);
    Some(list)
}

/// The vtables of the base at `object_offset`.
pub open spec fn vtables_at(
    candidates: Seq<VtableCandidate>,
    object_offset: u32,
) -> Seq<VtableCandidate> {
    candidates.filter(|candidate: VtableCandidate| candidate.object_offset == object_offset)
}

/// Finds the only vtable of the base at `object_offset`.
pub fn unique_vtable(candidates: &[VtableCandidate], object_offset: u32) -> (found: Option<
    VtableCandidate,
>)
    ensures
        match found {
            Some(vtable) => vtables_at(candidates@, object_offset) == seq![vtable],
            None => vtables_at(candidates@, object_offset).len() != 1,
        },
{
    let ghost wanted = |candidate: VtableCandidate| candidate.object_offset == object_offset;
    let mut found: Option<VtableCandidate> = None;
    let mut count: usize = 0;
    let mut index: usize = 0;
    reveal(Seq::filter);
    assert(candidates@.take(0) =~= Seq::empty());
    while index < candidates.len()
        invariant
            index <= candidates.len(),
            count <= index,
            wanted == (|candidate: VtableCandidate| candidate.object_offset == object_offset),
            candidates@.take(index as int).filter(wanted).len() == count,
            count == 1 ==> found is Some && candidates@.take(index as int).filter(wanted) == seq![
                found->0,
            ],
        decreases candidates.len() - index,
    {
        let candidate = candidates[index];
        proof {
            reveal(Seq::filter);
            assert(candidates@.take(index + 1).drop_last() =~= candidates@.take(index as int));
            assert(candidates@.take(index + 1).last() == candidate);
        }
        if candidate.object_offset == object_offset {
            proof {
                if count == 0 {
                    assert(candidates@.take(index as int).filter(wanted) =~= Seq::empty());
                    assert(Seq::empty().push(candidate) =~= seq![candidate]);
                }
            }
            count = count + 1;
            found = Some(candidate);
        }
        index = index + 1;
    }
    assert(candidates@.take(candidates@.len() as int) =~= candidates@);
    if count == 1 {
        found
    } else {
        None
    }
}

/// The layout that the method in one entry of a secondary vtable reveals.
pub open spec fn entry_layout(
    module_base: u64,
    image: Seq<u8>,
    sections: Seq<PeSection>,
    primary: VtableCandidate,
    secondary: VtableCandidate,
    entry: int,
) -> Option<RecoveryLayout> {
    match pointed_rva(module_base, image, secondary.vtable_rva + 8 * entry) {
        Some(method) if runs_at(sections, method) => match method_fields(
            module_base,
            image,
            sections,
            method,
        ) {
            Some(fields) if secondary.object_offset + fields.deadline_from_secondary <= u32::MAX
                && secondary.object_offset + fields.counter_from_secondary <= u32::MAX => Some(
                RecoveryLayout {
                    primary_vtable_rva: primary.vtable_rva,
                    secondary_vtable_rva: secondary.vtable_rva,
                    secondary_object_offset: secondary.object_offset,
                    worker_method_rva: method,
                    discovery_deadline_offset: (secondary.object_offset
                        + fields.deadline_from_secondary) as u32,
                    discovery_counter_offset: (secondary.object_offset
                        + fields.counter_from_secondary) as u32,
                },
            ),
            _ => None,
        },
        _ => None,
    }
}

/// `list` with the layouts that the first `entries` methods of a vtable reveal.
pub open spec fn with_layouts(
    list: Seq<RecoveryLayout>,
    module_base: u64,
    image: Seq<u8>,
    sections: Seq<PeSection>,
    primary: VtableCandidate,
    secondary: VtableCandidate,
    entries: int,
) -> Seq<RecoveryLayout>
    decreases entries,
{
    if entries <= 0 {
        list
    } else {
        let before = with_layouts(
            list,
            module_base,
            image,
            sections,
            primary,
            secondary,
            entries - 1,
        );
        match entry_layout(module_base, image, sections, primary, secondary, entries - 1) {
            Some(layout) => with_new(before, layout),
            None => before,
        }
    }
}

/// The different layouts that the methods of the secondary vtables reveal.
pub open spec fn layouts_of(
    module_base: u64,
    image: Seq<u8>,
    sections: Seq<PeSection>,
    vtables: Seq<VtableCandidate>,
    primary: VtableCandidate,
) -> Seq<RecoveryLayout>
    decreases vtables.len(),
{
    if vtables.len() == 0 {
        Seq::empty()
    } else {
        let before = layouts_of(module_base, image, sections, vtables.drop_last(), primary);
        let secondary = vtables.last();
        if secondary.object_offset != 0 {
            with_layouts(
                before,
                module_base,
                image,
                sections,
                primary,
                secondary,
                MAX_VTABLE_METHODS as int,
            )
        } else {
            before
        }
    }
}

/// Inspects one entry of a secondary vtable.
fn read_entry_layout(
    module_base: usize,
    image: &[u8],
    sections: &[PeSection],
    primary: VtableCandidate,
    secondary: VtableCandidate,
    entry: usize,
) -> (layout: Option<RecoveryLayout>)
    requires
        entry < MAX_VTABLE_METHODS,
    ensures
        layout == entry_layout(
            module_base as u64,
            image@,
            sections@,
            primary,
            secondary,
            entry as int,
        ),
{
    assert(image.len() <= usize::MAX);
    let pointer: usize = (secondary.vtable_rva as usize).saturating_add(entry * 8);
    let method: u32 = match read_rva(module_base, image, pointer) {
        Some(method) => method,
        None => {
            return None;
        },
    };
    if !rva_is_executable(sections, method) {
        return None;
    }
    match analyze_scheduler_method(module_base, image, sections, method) {
        Some(fields) => {
            let deadline = secondary.object_offset.checked_add(fields.deadline_from_secondary);
            let counter = secondary.object_offset.checked_add(fields.counter_from_secondary);
            match (deadline, counter) {
                (Some(deadline), Some(counter)) => Some(
                    RecoveryLayout {
                        primary_vtable_rva: primary.vtable_rva,
                        secondary_vtable_rva: secondary.vtable_rva,
                        secondary_object_offset: secondary.object_offset,
                        worker_method_rva: method,
                        discovery_deadline_offset: deadline,
                        discovery_counter_offset: counter,
                    },
                ),
                _ => None,
            }
        },
        None => None,
    }
}

/// Finds the different layouts that the methods of the secondary vtables reveal.
pub fn find_scheduler_layouts(
    module_base: usize,
    image: &[u8],
    sections: &[PeSection],
    vtables: &[VtableCandidate],
    primary: VtableCandidate,
) -> (layouts: Vec<RecoveryLayout>)
    ensures
        layouts@ == layouts_of(module_base as u64, image@, sections@, vtables@, primary),
{
    let mut layouts: Vec<RecoveryLayout> = Vec::new();
    let mut index: usize = 0;
    assert(vtables@.take(0) =~= Seq::empty());
    while index < vtables.len()
        invariant
            index <= vtables.len(),
            layouts@ == layouts_of(
                module_base as u64,
                image@,
                sections@,
                vtables@.take(index as int),
                primary,
            ),
        decreases vtables.len() - index,
    {
        let secondary = vtables[index];
        proof {
            assert(vtables@.take(index + 1).drop_last() =~= vtables@.take(index as int));
            assert(vtables@.take(index + 1).last() == secondary);
        }
        if secondary.object_offset != 0 {
            let ghost before = layouts@;
            let mut entry: usize = 0;
            while entry < MAX_VTABLE_METHODS
                invariant
                    entry <= MAX_VTABLE_METHODS,
                    layouts@ == with_layouts(
                        before,
                        module_base as u64,
                        image@,
                        sections@,
                        primary,
                        secondary,
                        entry as int,
                    ),
                decreases MAX_VTABLE_METHODS - entry,
            {
                if let Some(layout) = read_entry_layout(
                    module_base,
                    image,
                    sections,
                    primary,
                    secondary,
                    entry,
                ) {
                    proof {
                        lemma_items_are_told_apart();
                    }
                    push_new(&mut layouts, layout);
                }
                entry = entry + 1;
            }
        }
        index = index + 1;
    }
    assert(vtables@.take(vtables@.len() as int) =~= vtables@);
    layouts
}

/// The name under which the HID thread's class is listed in the module's RTTI.
pub open spec fn rtti_name() -> Seq<u8> {
    vstd::utf8::encode_utf8(".?AVCHIDIOThread@CSteamController@@\0"@)
}

/// The layout that a snapshot proves, or why it proves none.
pub open spec fn resolved(module_base: u64, image: Seq<u8>) -> Result<
    RecoveryLayout,
    ResolveFailure,
> {
    match pe_sections(image) {
        Err(reason) => Err(ResolveFailure::InvalidPe(reason)),
        Ok(sections) => {
            let names = occurrences(image, rtti_name());
            let descriptor = names[0] - TYPE_DESCRIPTOR_NAME_OFFSET;
            let found = locators(image, descriptor as u32);
            let vtables = vtables_of(module_base, image, sections, found);
            let primaries = vtables_at(vtables, 0);
            let layouts = layouts_of(module_base, image, sections, vtables, primaries[0]);
            if names.len() != 1 {
                Err(ResolveFailure::RttiNameCount(names.len()))
            } else if descriptor < 0 {
                Err(ResolveFailure::InvalidPe("RTTI type descriptor underflow"@))
            } else if descriptor > u32::MAX {
                Err(ResolveFailure::InvalidPe("RTTI RVA exceeds 32 bits"@))
            } else if found.len() == 0 {
                Err(ResolveFailure::CompleteObjectLocatorNotFound)
            } else if exists|index: int|
                0 <= index < found.len() && module_base + (#[trigger] found[index]).0 > u64::MAX {
                Err(ResolveFailure::InvalidPe("module address overflow"@))
            } else if primaries.len() != 1 {
                Err(ResolveFailure::VtableNotUnique("primary"@))
            } else if layouts.len() != 1 {
                Err(ResolveFailure::SchedulerNotUnique(layouts.len()))
            } else {
                Ok(layouts[0])
            }
        },
    }
}

/// Resolves controller recovery from a snapshot of a loaded PE image.
///
/// `module_base` is the runtime base that absolute pointers in `image` rest on.
/// The bytes are indexed by RVA; unreadable pages may be zero-filled. Every
/// failure means that the layout could not be proven from this image, and the
/// caller must fall back rather than act on a guess.
pub fn resolve_recovery_layout(module_base: usize, image: &[u8]) -> (layout: Result<
    RecoveryLayout,
    ResolveError,
>)
    ensures
        match layout {
            Ok(found) => resolved(module_base as u64, image@) == Ok::<
                RecoveryLayout,
                ResolveFailure,
            >(found),
            Err(error) => resolved(module_base as u64, image@) == Err::<
                RecoveryLayout,
                ResolveFailure,
            >(error@),
        },
        layout matches Ok(found) ==> 0 < found.secondary_object_offset <= MAX_SECONDARY_OFFSET,
{
    let sections = match parse_pe_sections(image) {
        Ok(sections) => sections,
        Err(reason) => {
            return Err(ResolveError::InvalidPe(reason));
        },
    };
    let name = ".?AVCHIDIOThread@CSteamController@@\0".as_bytes();
    let position: usize = match find_unique(image, name) {
        Ok(position) => position,
        Err(count) => {
            return Err(ResolveError::RttiNameCount(count));
        },
    };
    if position < TYPE_DESCRIPTOR_NAME_OFFSET {
        return Err(ResolveError::InvalidPe("RTTI type descriptor underflow"));
    }
    let descriptor: usize = position - TYPE_DESCRIPTOR_NAME_OFFSET;
    if descriptor as u64 > 0xFFFF_FFFF {
        return Err(ResolveError::InvalidPe("RTTI RVA exceeds 32 bits"));
    }
    let found = find_complete_object_locators(image, descriptor as u32);
    if found.len() == 0 {
        return Err(ResolveError::CompleteObjectLocatorNotFound);
    }
    let vtables = match find_vtables(module_base, image, &sections, &found) {
        Some(vtables) => vtables,
        None => {
            return Err(ResolveError::InvalidPe("module address overflow"));
        },
    };
    let primary = match unique_vtable(&vtables, 0) {
        Some(primary) => primary,
        None => {
            return Err(ResolveError::VtableNotUnique("primary"));
        },
    };
    let layouts = find_scheduler_layouts(module_base, image, &sections, &vtables, primary);
    if layouts.len() != 1 {
        return Err(ResolveError::SchedulerNotUnique(layouts.len()));
    }
    proof {
        law_a_resolved_base_offset_is_small(module_base as u64, image@, layouts@[0]);
    }
    Ok(layouts[0])
}

/// Whether the image shows a vtable of the class: the word before its first
/// entry points to a locator of the class, and its first entry points to code.
pub open spec fn is_vtable(
    module_base: u64,
    image: Seq<u8>,
    sections: Seq<PeSection>,
    locators: Seq<(u32, u32)>,
    vtable: VtableCandidate,
) -> bool {
    exists|index: int|
        0 <= index < locators.len() && #[trigger] vtable_of(
            module_base,
            image,
            sections,
            locators[index],
            vtable,
        )
}

/// Whether the image shows a vtable that belongs to one locator.
pub open spec fn vtable_of(
    module_base: u64,
    image: Seq<u8>,
    sections: Seq<PeSection>,
    locator: (u32, u32),
    vtable: VtableCandidate,
) -> bool {
    &&& vtable.object_offset == locator.1
    &&& vtable.vtable_rva >= 8
    &&& word_is(image, (module_base + locator.0) as u64)(vtable.vtable_rva - 8)
    &&& points_to_code(module_base, image, sections, vtable.vtable_rva as int)
}

proof fn lemma_with_new<T>(list: Seq<T>, item: T)
    requires
        list.no_duplicates(),
    ensures
        with_new(list, item).no_duplicates(),
        forall|other: T| #[trigger]
            with_new(list, item).contains(other) <==> list.contains(other) || other == item,
{
    let longer = with_new(list, item);
    if !list.contains(item) {
        assert forall|other: T| #[trigger] longer.contains(other) <==> list.contains(other) || other
            == item by {
            if list.contains(other) {
                let at = choose|at: int| 0 <= at < list.len() && list[at] == other;
                assert(longer[at] == other);
            }
            if longer.contains(other) && other != item {
                let at = choose|at: int| 0 <= at < longer.len() && longer[at] == other;
                assert(list[at] == other);
            }
            assert(longer[list.len() as int] == item);
        }
    }
}

proof fn lemma_with_vtables(
    list: Seq<VtableCandidate>,
    module_base: u64,
    image: Seq<u8>,
    sections: Seq<PeSection>,
    object_offset: u32,
    references: Seq<int>,
)
    requires
        list.no_duplicates(),
    ensures
        ({
            let all = with_vtables(
                list,
                module_base,
                image,
                sections,
                object_offset,
                references,
            );
            &&& all.no_duplicates()
            &&& forall|vtable: VtableCandidate| #[trigger]
                all.contains(vtable) <==> list.contains(vtable) || {
                    &&& vtable.object_offset == object_offset
                    &&& references.contains(vtable.vtable_rva - 8)
                    &&& points_to_code(module_base, image, sections, vtable.vtable_rva as int)
                }
        }),
    decreases references.len(),
{
    let all = with_vtables(list, module_base, image, sections, object_offset, references);
    if references.len() > 0 {
        let fewer = references.drop_last();
        lemma_with_vtables(list, module_base, image, sections, object_offset, fewer);
        let before = with_vtables(list, module_base, image, sections, object_offset, fewer);
        let last = references.last();
        assert(forall|reference: int|
            references.contains(reference) <==> fewer.contains(reference) || reference == last) by {
            assert forall|reference: int|
                references.contains(reference) <==> fewer.contains(reference) || reference
                    == last by {
                if fewer.contains(reference) {
                    let at = choose|at: int| 0 <= at < fewer.len() && fewer[at] == reference;
                    assert(references[at] == reference);
                }
                if references.contains(reference) && reference != last {
                    let at = choose|at: int|
                        0 <= at < references.len() && references[at] == reference;
                    assert(fewer[at] == reference);
                }
                assert(references[references.len() - 1] == last);
            }
        }
        if last + 8 <= u32::MAX && points_to_code(module_base, image, sections, last + 8) {
            lemma_with_new(
                before,
                VtableCandidate { object_offset, vtable_rva: (last + 8) as u32 },
            );
        }
    }
}

/// The vtables that are listed are exactly those that the image shows behind a
/// reference to one of the locators, each once.
pub proof fn law_the_listed_vtables_are_those_shown(
    module_base: u64,
    image: Seq<u8>,
    sections: Seq<PeSection>,
    locators: Seq<(u32, u32)>,
)
    ensures
        vtables_of(module_base, image, sections, locators).no_duplicates(),
        forall|vtable: VtableCandidate| #[trigger]
            vtables_of(module_base, image, sections, locators).contains(vtable) <==> is_vtable(
                module_base,
                image,
                sections,
                locators,
                vtable,
            ),
    decreases locators.len(),
{
    let all = vtables_of(module_base, image, sections, locators);
    if locators.len() == 0 {
    } else {
        let fewer = locators.drop_last();
        let last = locators.last();
        let wanted = word_is(image, (module_base + last.0) as u64);
        let references = hits(image.len() as int, wanted);
        law_the_listed_vtables_are_those_shown(module_base, image, sections, fewer);
        lemma_with_vtables(
            vtables_of(module_base, image, sections, fewer),
            module_base,
            image,
            sections,
            last.1,
            references,
        );
        law_hits_are_the_wanted_indices(image.len() as int, wanted);
        assert forall|vtable: VtableCandidate| #[trigger] all.contains(vtable) <==> is_vtable(
            module_base,
            image,
            sections,
            locators,
            vtable,
        ) by {
            let at_end = vtable_of(module_base, image, sections, last, vtable);
            assert(at_end ==> references.contains(vtable.vtable_rva - 8));
            if is_vtable(module_base, image, sections, fewer, vtable) {
                let index = choose|index: int|
                    0 <= index < fewer.len() && #[trigger] vtable_of(
                        module_base,
                        image,
                        sections,
                        fewer[index],
                        vtable,
                    );
                assert(vtable_of(module_base, image, sections, locators[index], vtable));
            }
            if is_vtable(module_base, image, sections, locators, vtable) && !at_end {
                let index = choose|index: int|
                    0 <= index < locators.len() && #[trigger] vtable_of(
                        module_base,
                        image,
                        sections,
                        locators[index],
                        vtable,
                    );
                assert(vtable_of(module_base, image, sections, fewer[index], vtable));
            }
            assert(at_end ==> vtable_of(
                module_base,
                image,
                sections,
                locators[locators.len() - 1],
                vtable,
            ));
        }
    }
}

/// Whether some inspected entry of a secondary vtable reveals the layout.
pub open spec fn revealed_by(
    module_base: u64,
    image: Seq<u8>,
    sections: Seq<PeSection>,
    primary: VtableCandidate,
    secondary: VtableCandidate,
    entry: int,
    layout: RecoveryLayout,
) -> bool {
    &&& secondary.object_offset != 0
    &&& 0 <= entry < MAX_VTABLE_METHODS
    &&& entry_layout(module_base, image, sections, primary, secondary, entry) == Some(layout)
}

proof fn lemma_with_layouts(
    list: Seq<RecoveryLayout>,
    module_base: u64,
    image: Seq<u8>,
    sections: Seq<PeSection>,
    primary: VtableCandidate,
    secondary: VtableCandidate,
    entries: int,
)
    requires
        list.no_duplicates(),
        secondary.object_offset != 0,
        0 <= entries <= MAX_VTABLE_METHODS,
    ensures
        ({
            let all = with_layouts(
                list,
                module_base,
                image,
                sections,
                primary,
                secondary,
                entries,
            );
            &&& all.no_duplicates()
            &&& forall|layout: RecoveryLayout| #[trigger]
                all.contains(layout) <==> list.contains(layout) || exists|entry: int|
                    entry < entries && #[trigger] revealed_by(
                        module_base,
                        image,
                        sections,
                        primary,
                        secondary,
                        entry,
                        layout,
                    )
        }),
    decreases entries,
{
    if entries > 0 {
        let last = entries - 1;
        lemma_with_layouts(list, module_base, image, sections, primary, secondary, last);
        let before = with_layouts(
            list,
            module_base,
            image,
            sections,
            primary,
            secondary,
            last,
        );
        let all = with_layouts(list, module_base, image, sections, primary, secondary, entries);
        let found = entry_layout(module_base, image, sections, primary, secondary, last);
        if let Some(layout) = found {
            lemma_with_new(before, layout);
            assert(revealed_by(module_base, image, sections, primary, secondary, last, layout));
        }
        assert forall|layout: RecoveryLayout| #[trigger] all.contains(layout) <==> list.contains(
            layout,
        ) || exists|entry: int|
            entry < entries && #[trigger] revealed_by(
                module_base,
                image,
                sections,
                primary,
                secondary,
                entry,
                layout,
            ) by {
            assert(all.contains(layout) <==> before.contains(layout) || found == Some(layout));
            if exists|entry: int|
                entry < entries && #[trigger] revealed_by(
                    module_base,
                    image,
                    sections,
                    primary,
                    secondary,
                    entry,
                    layout,
                ) {
                let entry = choose|entry: int|
                    entry < entries && #[trigger] revealed_by(
                        module_base,
                        image,
                        sections,
                        primary,
                        secondary,
                        entry,
                        layout,
                    );
                assert(entry < last || found == Some(layout));
            }
        }
    }
}

/// The layouts that are listed are exactly those that an inspected entry of a
/// secondary vtable reveals, each once.
pub proof fn law_the_listed_layouts_are_those_revealed(
    module_base: u64,
    image: Seq<u8>,
    sections: Seq<PeSection>,
    vtables: Seq<VtableCandidate>,
    primary: VtableCandidate,
)
    ensures
        layouts_of(module_base, image, sections, vtables, primary).no_duplicates(),
        forall|layout: RecoveryLayout| #[trigger]
            layouts_of(module_base, image, sections, vtables, primary).contains(layout)
                <==> exists|secondary: VtableCandidate, entry: int|
                vtables.contains(secondary) && #[trigger] revealed_by(
                    module_base,
                    image,
                    sections,
                    primary,
                    secondary,
                    entry,
                    layout,
                ),
    decreases vtables.len(),
{
    let all = layouts_of(module_base, image, sections, vtables, primary);
    if vtables.len() > 0 {
        let fewer = vtables.drop_last();
        let last = vtables.last();
        law_the_listed_layouts_are_those_revealed(module_base, image, sections, fewer, primary);
        let before = layouts_of(module_base, image, sections, fewer, primary);
        if last.object_offset != 0 {
            lemma_with_layouts(
                before,
                module_base,
                image,
                sections,
                primary,
                last,
                MAX_VTABLE_METHODS as int,
            );
        }
        assert forall|vtable: VtableCandidate| #[trigger] vtables.contains(vtable)
            <==> fewer.contains(vtable) || vtable == last by {
            if fewer.contains(vtable) {
                let at = choose|at: int| 0 <= at < fewer.len() && fewer[at] == vtable;
                assert(vtables[at] == vtable);
            }
            if vtables.contains(vtable) && vtable != last {
                let at = choose|at: int| 0 <= at < vtables.len() && vtables[at] == vtable;
                assert(fewer[at] == vtable);
            }
            assert(vtables[vtables.len() - 1] == last);
        }
        assert forall|layout: RecoveryLayout| #[trigger] all.contains(layout)
            <==> exists|secondary: VtableCandidate, entry: int|
            vtables.contains(secondary) && #[trigger] revealed_by(
                module_base,
                image,
                sections,
                primary,
                secondary,
                entry,
                layout,
            ) by {
            if exists|secondary: VtableCandidate, entry: int|
                vtables.contains(secondary) && #[trigger] revealed_by(
                    module_base,
                    image,
                    sections,
                    primary,
                    secondary,
                    entry,
                    layout,
                ) {
                let (secondary, entry) = choose|secondary: VtableCandidate, entry: int|
                    vtables.contains(secondary) && #[trigger] revealed_by(
                        module_base,
                        image,
                        sections,
                        primary,
                        secondary,
                        entry,
                        layout,
                    );
                assert(fewer.contains(secondary) || secondary == last);
            }
            if before.contains(layout) {
                let (secondary, entry) = choose|secondary: VtableCandidate, entry: int|
                    fewer.contains(secondary) && #[trigger] revealed_by(
                        module_base,
                        image,
                        sections,
                        primary,
                        secondary,
                        entry,
                        layout,
                    );
                assert(vtables.contains(secondary));
            }
            assert(vtables.contains(last));
        }
    }
}

/// A snapshot resolves only to a layout that it proves, and only where it proves
/// no other.
///
/// The class has one primary vtable and some inspected entry of a secondary
/// vtable reveals the layout; every vtable and every entry that the image shows
/// agrees with it.
pub proof fn law_a_resolved_layout_is_the_only_one(
    module_base: u64,
    image: Seq<u8>,
    layout: RecoveryLayout,
)
    requires
        resolved(module_base, image) == Ok::<RecoveryLayout, ResolveFailure>(layout),
    ensures
        ({
            let sections = pe_sections(image)->Ok_0;
            let name = occurrences(image, rtti_name())[0];
            let found = locators(image, (name - TYPE_DESCRIPTOR_NAME_OFFSET) as u32);
            let primary = VtableCandidate {
                object_offset: 0,
                vtable_rva: layout.primary_vtable_rva,
            };
            &&& occurrences(image, rtti_name()) == seq![name]
            &&& is_vtable(module_base, image, sections, found, primary)
            &&& forall|other: VtableCandidate|
                other.object_offset == 0 && #[trigger] is_vtable(
                    module_base,
                    image,
                    sections,
                    found,
                    other,
                ) ==> other == primary
            &&& exists|secondary: VtableCandidate, entry: int|
                is_vtable(module_base, image, sections, found, secondary) && #[trigger] revealed_by(
                    module_base,
                    image,
                    sections,
                    primary,
                    secondary,
                    entry,
                    layout,
                )
            &&& forall|secondary: VtableCandidate, entry: int, other: RecoveryLayout|
                is_vtable(module_base, image, sections, found, secondary) && #[trigger] revealed_by(
                    module_base,
                    image,
                    sections,
                    primary,
                    secondary,
                    entry,
                    other,
                ) ==> other == layout
        }),
{
    let sections = pe_sections(image)->Ok_0;
    let names = occurrences(image, rtti_name());
    let found = locators(image, (names[0] - TYPE_DESCRIPTOR_NAME_OFFSET) as u32);
    let vtables = vtables_of(module_base, image, sections, found);
    let primaries = vtables_at(vtables, 0);
    let primary = primaries[0];
    let layouts = layouts_of(module_base, image, sections, vtables, primary);
    assert(names =~= seq![names[0]]);
    law_the_listed_vtables_are_those_shown(module_base, image, sections, found);
    law_the_listed_layouts_are_those_revealed(module_base, image, sections, vtables, primary);
    let zero = |candidate: VtableCandidate| candidate.object_offset == 0;
    assert(primaries.contains(primary));
    vtables.lemma_filter_contains_rev(zero, primary);
    assert(vtables.contains(primary) && primary.object_offset == 0);
    assert(layouts.contains(layout));
    let (secondary, entry) = choose|secondary: VtableCandidate, entry: int|
        vtables.contains(secondary) && #[trigger] revealed_by(
            module_base,
            image,
            sections,
            primary,
            secondary,
            entry,
            layout,
        );
    assert(layout.primary_vtable_rva == primary.vtable_rva);
    assert forall|other: VtableCandidate|
        other.object_offset == 0 && #[trigger] is_vtable(
            module_base,
            image,
            sections,
            found,
            other,
        ) implies other == primary by {
        assert(vtables.contains(other));
        let at = choose|at: int| 0 <= at < vtables.len() && vtables[at] == other;
        vtables.lemma_filter_contains(zero, at);
    }
    assert forall|secondary: VtableCandidate, entry: int, other: RecoveryLayout|
        is_vtable(module_base, image, sections, found, secondary) && #[trigger] revealed_by(
            module_base,
            image,
            sections,
            primary,
            secondary,
            entry,
            other,
        ) implies other == layout by {
        assert(vtables.contains(secondary));
        assert(layouts.contains(other));
    }
}

/// The secondary base of a resolved layout lies behind the primary one, within
/// the largest offset that is believed.
pub proof fn law_a_resolved_base_offset_is_small(
    module_base: u64,
    image: Seq<u8>,
    layout: RecoveryLayout,
)
    requires
        resolved(module_base, image) == Ok::<RecoveryLayout, ResolveFailure>(layout),
    ensures
        0 < layout.secondary_object_offset <= MAX_SECONDARY_OFFSET,
{
    law_a_resolved_layout_is_the_only_one(module_base, image, layout);
    let sections = pe_sections(image)->Ok_0;
    let name = occurrences(image, rtti_name())[0];
    let descriptor = (name - TYPE_DESCRIPTOR_NAME_OFFSET) as u32;
    let found = locators(image, descriptor);
    let primary = VtableCandidate { object_offset: 0, vtable_rva: layout.primary_vtable_rva };
    let (secondary, entry) = choose|secondary: VtableCandidate, entry: int|
        is_vtable(module_base, image, sections, found, secondary) && #[trigger] revealed_by(
            module_base,
            image,
            sections,
            primary,
            secondary,
            entry,
            layout,
        );
    let index = choose|index: int|
        0 <= index < found.len() && #[trigger] vtable_of(
            module_base,
            image,
            sections,
            found[index],
            secondary,
        );
    let wanted = locator_at(image, descriptor);
    let all = hits(image.len() as int, wanted);
    law_hits_are_the_wanted_indices(image.len() as int, wanted);
    assert(all.contains(all[index]));
    assert(wanted(all[index]));
}

/// An address has a module-relative one exactly where it lies at most 32 bits behind the
/// module's base, and that is its distance from the base.
pub proof fn law_relative_addresses_count_from_the_base(module_base: u64, address: u64, rva: u32)
    ensures
        rva_of(module_base, address) == Some(rva) <==> address == module_base + rva,
        rva_of(module_base, address) is None <==> address < module_base || address > module_base
            + u32::MAX,
{
}

/// A word points to code exactly where it holds the address of a byte of an executable
/// section.
pub proof fn law_code_is_pointed_to_by_address(
    module_base: u64,
    image: Seq<u8>,
    sections: Seq<PeSection>,
    offset: int,
)
    ensures
        points_to_code(module_base, image, sections, offset) <==> exists|index: int|
            0 <= index < sections.len() && (#[trigger] sections[index]).executable && u64_at(
                image,
                offset,
            ) is Some && module_base + sections[index].start <= u64_at(image, offset)->0 < module_base
                + sections[index].end,
{
    if points_to_code(module_base, image, sections, offset) {
        let rva = pointed_rva(module_base, image, offset)->0;
        let index = choose|index: int|
            0 <= index < sections.len() && (#[trigger] sections[index]).runs(rva);
        assert(sections[index].executable);
    }
    if exists|index: int|
        0 <= index < sections.len() && (#[trigger] sections[index]).executable && u64_at(
            image,
            offset,
        ) is Some && module_base + sections[index].start <= u64_at(image, offset)->0 < module_base
            + sections[index].end {
        let index = choose|index: int|
            0 <= index < sections.len() && (#[trigger] sections[index]).executable && u64_at(
                image,
                offset,
            ) is Some && module_base + sections[index].start <= u64_at(image, offset)->0
                < module_base + sections[index].end;
        let rva = pointed_rva(module_base, image, offset)->0;
        assert(sections[index].runs(rva));
    }
}

/// A locator is listed exactly where an aligned record of the image has its shape: the
/// signature, a base offset of at most 256, no constructor displacement, the class's
/// descriptor, a hierarchy inside the image, and its own address.
pub proof fn law_locators_are_told_by_their_shape(
    image: Seq<u8>,
    type_descriptor: u32,
    rva: u32,
    object_offset: u32,
)
    ensures
        locators(image, type_descriptor).contains((rva, object_offset)) <==> {
            &&& rva % 4 == 0
            &&& rva + 24 < image.len()
            &&& u32_at(image, rva as int) == Some(1u32)
            &&& u32_at(image, rva + 4) == Some(object_offset)
            &&& object_offset <= 0x100
            &&& u32_at(image, rva + 8) == Some(0u32)
            &&& u32_at(image, rva + 12) == Some(type_descriptor)
            &&& u32_at(image, rva + 16)->0 < image.len()
            &&& u32_at(image, rva + 20) == Some(rva)
        },
{
    let wanted = locator_at(image, type_descriptor);
    let all = hits(image.len() as int, wanted);
    let listed = locators(image, type_descriptor);
    law_hits_are_the_wanted_indices(image.len() as int, wanted);
    if listed.contains((rva, object_offset)) {
        let at = choose|at: int| 0 <= at < listed.len() && listed[at] == (rva, object_offset);
        assert(all.contains(all[at]));
        assert(wanted(all[at]));
        assert(all[at] == rva);
    }
    if wanted(rva as int) && u32_at(image, rva + 4) == Some(object_offset) && rva < image.len() {
        assert(all.contains(rva as int));
        let at = choose|at: int| 0 <= at < all.len() && all[at] == rva;
        assert(listed[at] == (rva, object_offset));
    }
}

/// A vtable of the class stands right behind a word that holds the address of one of its
/// locators, belongs to the base that the locator names, and begins with code.
pub proof fn law_a_vtable_stands_behind_its_locator(
    module_base: u64,
    image: Seq<u8>,
    sections: Seq<PeSection>,
    locator: (u32, u32),
    vtable: VtableCandidate,
)
    requires
        module_base + locator.0 <= u64::MAX,
    ensures
        vtable_of(module_base, image, sections, locator, vtable) <==> {
            &&& vtable.vtable_rva >= 8
            &&& vtable.vtable_rva % 8 == 0
            &&& u64_at(image, vtable.vtable_rva - 8) is Some
            &&& u64_at(image, vtable.vtable_rva - 8)->0 == module_base + locator.0
            &&& vtable.object_offset == locator.1
            &&& points_to_code(module_base, image, sections, vtable.vtable_rva as int)
        },
{
}

/// What an entry of a secondary vtable reveals counts from the whole object: the offsets
/// are the base's own offset plus what its method accesses relative to that base, for
/// every base offset. Nothing is revealed by an entry that does not point to code, by a
/// method without unambiguous fields, or where an offset would not fit.
pub proof fn law_offsets_count_from_the_whole_object(
    module_base: u64,
    image: Seq<u8>,
    sections: Seq<PeSection>,
    primary: VtableCandidate,
    secondary: VtableCandidate,
    entry: int,
    layout: RecoveryLayout,
)
    ensures
        entry_layout(module_base, image, sections, primary, secondary, entry) == Some(layout)
            <==> {
            let method = layout.worker_method_rva;
            let fields = method_fields(module_base, image, sections, method);
            &&& points_to_code(
                module_base,
                image,
                sections,
                secondary.vtable_rva + 8 * entry,
            )
            &&& u64_at(image, secondary.vtable_rva + 8 * entry)->0 == module_base + method
            &&& fields is Some
            &&& layout.discovery_deadline_offset - layout.secondary_object_offset
                == fields->0.deadline_from_secondary
            &&& layout.discovery_counter_offset - layout.secondary_object_offset
                == fields->0.counter_from_secondary
            &&& layout.secondary_object_offset == secondary.object_offset
            &&& layout.secondary_vtable_rva == secondary.vtable_rva
            &&& layout.primary_vtable_rva == primary.vtable_rva
        },
{
}

/// A resolved layout's deadline and counter stand where the worker method accesses them:
/// its code loads and stores the one and increments the other, both relative to the
/// secondary base, and the layout's offsets are the base's offset plus these
/// displacements.
pub proof fn law_resolved_offsets_are_the_worker_methods(
    module_base: u64,
    image: Seq<u8>,
    layout: RecoveryLayout,
)
    requires
        resolved(module_base, image) == Ok::<RecoveryLayout, ResolveFailure>(layout),
    ensures
        ({
            let method = layout.worker_method_rva as int;
            let address = (module_base + layout.worker_method_rva) as u64;
            exists|end: int, fields: SchedulerFields|
                {
                    &&& method < end <= image.len()
                    &&& end <= method + 0x20_000
                    &&& #[trigger] schedules(
                        method_instructions(image.subrange(method, end), address),
                        fields,
                    )
                    &&& layout.discovery_deadline_offset == layout.secondary_object_offset
                        + fields.deadline_from_secondary
                    &&& layout.discovery_counter_offset == layout.secondary_object_offset
                        + fields.counter_from_secondary
                }
        }),
        module_base + layout.worker_method_rva <= u64::MAX,
{
    law_a_resolved_layout_is_the_only_one(module_base, image, layout);
    let sections = pe_sections(image)->Ok_0;
    let name = occurrences(image, rtti_name())[0];
    let found = locators(image, (name - TYPE_DESCRIPTOR_NAME_OFFSET) as u32);
    let primary = VtableCandidate { object_offset: 0, vtable_rva: layout.primary_vtable_rva };
    let (secondary, entry) = choose|secondary: VtableCandidate, entry: int|
        is_vtable(module_base, image, sections, found, secondary) && #[trigger] revealed_by(
            module_base,
            image,
            sections,
            primary,
            secondary,
            entry,
            layout,
        );
    law_offsets_count_from_the_whole_object(
        module_base,
        image,
        sections,
        primary,
        secondary,
        entry,
        layout,
    );
    let method = layout.worker_method_rva;
    let address = (module_base + method) as u64;
    let fields = method_fields(module_base, image, sections, method)->0;
    let end = method_end(image, first_running(sections, method)->0, method);
    let code = method_instructions(image.subrange(method as int, end), address);
    law_only_unambiguous_fields_are_derived(code, fields, fields);
    assert(schedules(code, fields));
}

/// What a resolved layout names is all shown by the image: the class's name, once; a
/// primary vtable behind a locator of the whole object; a secondary vtable behind a
/// locator of the base at the layout's offset; and the worker method in one of the first
/// eight entries of that vtable.
pub proof fn law_a_resolved_layout_is_shown_by_the_image(
    module_base: u64,
    image: Seq<u8>,
    layout: RecoveryLayout,
)
    requires
        resolved(module_base, image) == Ok::<RecoveryLayout, ResolveFailure>(layout),
    ensures
        ({
            let sections = pe_sections(image)->Ok_0;
            let name = occurrences(image, rtti_name())[0];
            let found = locators(image, (name - 16) as u32);
            let primary = VtableCandidate {
                object_offset: 0,
                vtable_rva: layout.primary_vtable_rva,
            };
            let secondary = VtableCandidate {
                object_offset: layout.secondary_object_offset,
                vtable_rva: layout.secondary_vtable_rva,
            };
            &&& occurrences(image, rtti_name()).len() == 1
            &&& 16 <= name <= u32::MAX + 16
            &&& is_vtable(module_base, image, sections, found, primary)
            &&& is_vtable(module_base, image, sections, found, secondary)
            &&& layout.secondary_object_offset != 0
            &&& exists|entry: int|
                0 <= entry < 8 && #[trigger] entry_layout(
                    module_base,
                    image,
                    sections,
                    primary,
                    secondary,
                    entry,
                ) == Some(layout)
        }),
{
    law_a_resolved_layout_is_the_only_one(module_base, image, layout);
    let sections = pe_sections(image)->Ok_0;
    let name = occurrences(image, rtti_name())[0];
    let found = locators(image, (name - TYPE_DESCRIPTOR_NAME_OFFSET) as u32);
    let primary = VtableCandidate { object_offset: 0, vtable_rva: layout.primary_vtable_rva };
    let (secondary, entry) = choose|secondary: VtableCandidate, entry: int|
        is_vtable(module_base, image, sections, found, secondary) && #[trigger] revealed_by(
            module_base,
            image,
            sections,
            primary,
            secondary,
            entry,
            layout,
        );
    assert(secondary == VtableCandidate {
        object_offset: layout.secondary_object_offset,
        vtable_rva: layout.secondary_vtable_rva,
    });
    assert(entry_layout(module_base, image, sections, primary, secondary, entry) == Some(layout));
}

/// A snapshot resolves wherever it proves one layout: the headers are sound, the class's
/// name occurs once, its locators have addresses, one primary vtable is shown, and the
/// entries of all secondary vtables that reveal anything reveal the same.
pub proof fn law_a_unique_layout_is_resolved(
    module_base: u64,
    image: Seq<u8>,
    name: int,
    primary: VtableCandidate,
    secondary: VtableCandidate,
    entry: int,
    layout: RecoveryLayout,
)
    requires
        pe_sections(image) is Ok,
        occurrences(image, rtti_name()) == seq![name],
        16 <= name <= u32::MAX + 16,
        ({
            let sections = pe_sections(image)->Ok_0;
            let found = locators(image, (name - 16) as u32);
            &&& forall|index: int|
                0 <= index < found.len() ==> module_base + (#[trigger] found[index]).0 <= u64::MAX
            &&& primary.object_offset == 0
            &&& is_vtable(module_base, image, sections, found, primary)
            &&& forall|other: VtableCandidate|
                other.object_offset == 0 && #[trigger] is_vtable(
                    module_base,
                    image,
                    sections,
                    found,
                    other,
                ) ==> other == primary
            &&& is_vtable(module_base, image, sections, found, secondary)
            &&& secondary.object_offset != 0
            &&& 0 <= entry < 8
            &&& entry_layout(module_base, image, sections, primary, secondary, entry) == Some(
                layout,
            )
            &&& forall|rival: VtableCandidate, at: int, other: RecoveryLayout|
                is_vtable(module_base, image, sections, found, rival) && rival.object_offset != 0
                    && 0 <= at < 8 && #[trigger] revealed_by(
                    module_base,
                    image,
                    sections,
                    primary,
                    rival,
                    at,
                    other,
                ) ==> other == layout
        }),
    ensures
        resolved(module_base, image) == Ok::<RecoveryLayout, ResolveFailure>(layout),
{
    let sections = pe_sections(image)->Ok_0;
    let names = occurrences(image, rtti_name());
    let found = locators(image, (name - 16) as u32);
    let vtables = vtables_of(module_base, image, sections, found);
    let primaries = vtables_at(vtables, 0);
    let zero = |candidate: VtableCandidate| candidate.object_offset == 0;
    law_the_listed_vtables_are_those_shown(module_base, image, sections, found);
    assert(vtables.contains(primary) && vtables.contains(secondary));
    let at = choose|at: int| 0 <= at < vtables.len() && vtables[at] == primary;
    vtables.lemma_filter_contains(zero, at);
    lemma_filter_keeps_distinct(vtables, zero);
    assert forall|index: int| 0 <= index < primaries.len() implies #[trigger] primaries[index]
        == primary by {
        assert(primaries.contains(primaries[index]));
        vtables.lemma_filter_contains_rev(zero, primaries[index]);
        assert(vtables.contains(primaries[index]));
    }
    assert(primaries.len() == 1) by {
        if primaries.len() > 1 {
            assert(primaries[0] == primaries[1]);
        }
    }
    assert(primaries[0] == primary);
    law_the_listed_layouts_are_those_revealed(module_base, image, sections, vtables, primary);
    let layouts = layouts_of(module_base, image, sections, vtables, primary);
    assert(revealed_by(module_base, image, sections, primary, secondary, entry, layout));
    assert(layouts.contains(layout));
    assert forall|index: int| 0 <= index < layouts.len() implies #[trigger] layouts[index]
        == layout by {
        assert(layouts.contains(layouts[index]));
        let (rival, place) = choose|rival: VtableCandidate, place: int|
            vtables.contains(rival) && #[trigger] revealed_by(
                module_base,
                image,
                sections,
                primary,
                rival,
                place,
                layouts[index],
            );
        assert(is_vtable(module_base, image, sections, found, rival));
    }
    assert(layouts.len() == 1) by {
        if layouts.len() > 1 {
            assert(layouts[0] == layouts[1]);
        }
    }
    assert(names[0] == name);
    assert(is_vtable(module_base, image, sections, found, primary));
    assert(found.len() > 0);
}

proof fn lemma_filter_keeps_distinct<T>(list: Seq<T>, wanted: spec_fn(T) -> bool)
    requires
        list.no_duplicates(),
    ensures
        list.filter(wanted).no_duplicates(),
    decreases list.len(),
{
    reveal(Seq::filter);
    if list.len() > 0 {
        let fewer = list.drop_last();
        let kept = fewer.filter(wanted);
        lemma_filter_keeps_distinct(fewer, wanted);
        if wanted(list.last()) {
            assert forall|at: int| 0 <= at < kept.len() implies #[trigger] kept[at] != list.last() by {
                assert(kept.contains(kept[at]));
                fewer.lemma_filter_contains_rev(wanted, kept[at]);
                let place = choose|place: int| 0 <= place < fewer.len() && fewer[place] == kept[at];
                assert(list[place] == kept[at]);
                assert(list[list.len() - 1] == list.last());
            }
        }
    }
}

/// A failure tells what stood in the way: how often the class's name or a layout was
/// found, where that was not once, or that nothing refers to the class.
pub proof fn law_a_failed_resolution_tells_why(module_base: u64, image: Seq<u8>)
    ensures
        match resolved(module_base, image) {
            Ok(_) => pe_sections(image) is Ok,
            Err(ResolveFailure::RttiNameCount(count)) => count != 1 && count == occurrences(
                image,
                rtti_name(),
            ).len(),
            Err(ResolveFailure::CompleteObjectLocatorNotFound) => occurrences(
                image,
                rtti_name(),
            ).len() == 1 && locators(image, (occurrences(image, rtti_name())[0] - 16) as u32).len()
                == 0,
            Err(ResolveFailure::VtableNotUnique(kind)) => kind == "primary"@,
            Err(ResolveFailure::SchedulerNotUnique(count)) => count != 1,
            Err(ResolveFailure::InvalidPe(reason)) => {
                ||| pe_sections(image) == Err::<Seq<PeSection>, Seq<char>>(reason)
                ||| reason == "RTTI type descriptor underflow"@ && occurrences(
                    image,
                    rtti_name(),
                )[0] < 16
                ||| reason == "RTTI RVA exceeds 32 bits"@ && occurrences(image, rtti_name())[0]
                    > u32::MAX + 16
                ||| reason == "module address overflow"@ && module_base > u64::MAX - u32::MAX
            },
        },
        pe_sections(image) matches Err(reason) ==> resolved(module_base, image) == Err::<
            RecoveryLayout,
            ResolveFailure,
        >(ResolveFailure::InvalidPe(reason)),
{
}

} // verus!
