//! Recognition of the discovery scheduler in decoded x86-64 code.
//!
//! The worker method that schedules controller discovery loads a deadline,
//! counts a scan and stores a new deadline, all relative to one object. The
//! offsets of the two fields are read off that instruction sequence.

use iced_x86::{Decoder, DecoderOptions};
use vstd::prelude::*;

use crate::pe::{executable_end, first_running, lemma_first_running, smaller, PeSection};

verus! {

/// The largest part of a method that is inspected.
pub const MAX_METHOD_BYTES: usize = 0x20_000;

/// The largest field offset that is believed.
pub const MAX_FIELD_OFFSET: u64 = 0x20_000;

/// How many instructions after the increment may hold the deadline's store.
pub const STORE_WINDOW: usize = 8;

/// How many instructions before the increment may hold the deadline's load.
pub const LOAD_WINDOW: usize = 48;

/// Operand kind of a register, as the decoder numbers kinds.
pub const KIND_REGISTER: u32 = 0;

/// Operand kind of an 8-bit immediate.
pub const KIND_IMMEDIATE8: u32 = 6;

/// Operand kind of the second immediate of two.
pub const KIND_IMMEDIATE8_SECOND: u32 = 7;

/// Operand kind of a 32-bit immediate that is sign-extended to 64 bits, the last
/// of the immediate kinds.
pub const KIND_IMMEDIATE32_TO64: u32 = 14;

/// Operand kind of a memory operand with base, index and displacement.
pub const KIND_MEMORY: u32 = 24;

/// Number of the mnemonic `add`, as the decoder numbers mnemonics.
pub const MNEMONIC_ADD: u32 = 7;

/// Number of the mnemonic `inc`.
pub const MNEMONIC_INC: u32 = 279;

/// Number of the mnemonic `movsd`.
pub const MNEMONIC_MOVSD: u32 = 444;

/// Number of the mnemonic `ret`.
pub const MNEMONIC_RET: u32 = 662;

/// The register number that means no register.
pub const NO_REGISTER: u32 = 0;

/// What the analysis reads of one decoded instruction.
#[derive(Clone, Copy, Debug, PartialEq, Eq, Structural)]
pub struct DecodedInstruction {
    /// Length in bytes.
    pub length: usize,
    /// Number of the mnemonic.
    pub mnemonic: u32,
    /// Number of operands.
    pub operand_count: u32,
    /// Kind of the first operand.
    pub kind0: u32,
    /// Kind of the second operand.
    pub kind1: u32,
    /// Value of the second operand where it is an immediate.
    pub immediate1: Option<u64>,
    /// Base register of the memory operand.
    pub base: u32,
    /// Index register of the memory operand.
    pub index: u32,
    /// Displacement of the memory operand.
    pub displacement: u64,
    /// Whether the memory operand is relative to the instruction pointer.
    pub ip_relative: bool,
}

/// Field offsets of the discovery scheduler, relative to the secondary base.
#[derive(Clone, Copy, Debug, PartialEq, Eq, Structural)]
pub struct SchedulerFields {
    /// Offset of the deadline.
    pub deadline_from_secondary: u32,
    /// Offset of the counter.
    pub counter_from_secondary: u32,
}

/// A memory operand that is one base register plus a displacement.
pub open spec fn base_displacement(instruction: DecodedInstruction) -> Option<(u32, u64)> {
    if instruction.index == NO_REGISTER && !instruction.ip_relative {
        Some((instruction.base, instruction.displacement))
    } else {
        None
    }
}

/// Whether the instruction adds one to its first operand.
pub open spec fn adds_one(instruction: DecodedInstruction) -> bool {
    ||| instruction.mnemonic == MNEMONIC_INC
    ||| {
        &&& instruction.mnemonic == MNEMONIC_ADD
        &&& instruction.operand_count >= 2
        &&& KIND_IMMEDIATE8 <= instruction.kind1 <= KIND_IMMEDIATE32_TO64
        &&& instruction.kind1 != KIND_IMMEDIATE8_SECOND
        &&& instruction.immediate1 == Some(1u64)
    }
}

/// The memory that an instruction increments.
pub open spec fn incremented(instruction: DecodedInstruction) -> Option<(u32, u64)> {
    if adds_one(instruction) && instruction.kind0 == KIND_MEMORY {
        base_displacement(instruction)
    } else {
        None
    }
}

/// The memory that a `movsd` loads.
pub open spec fn loaded(instruction: DecodedInstruction) -> Option<(u32, u64)> {
    if instruction.mnemonic == MNEMONIC_MOVSD && instruction.kind0 == KIND_REGISTER
        && instruction.kind1 == KIND_MEMORY {
        base_displacement(instruction)
    } else {
        None
    }
}

/// The memory that a `movsd` stores.
pub open spec fn stored(instruction: DecodedInstruction) -> Option<(u32, u64)> {
    if instruction.mnemonic == MNEMONIC_MOVSD && instruction.kind0 == KIND_MEMORY
        && instruction.kind1 == KIND_REGISTER {
        base_displacement(instruction)
    } else {
        None
    }
}

/// Whether the load at `load`, the increment at `step` and the store at `store`
/// together reveal `fields`.
pub open spec fn reveals(
    code: Seq<DecodedInstruction>,
    fields: SchedulerFields,
    load: int,
    step: int,
    store: int,
) -> bool {
    let base = code[step].base;
    let counter = fields.counter_from_secondary as u64;
    let deadline = fields.deadline_from_secondary as u64;
    &&& 0 <= load < step < store < code.len()
    &&& step - load <= LOAD_WINDOW
    &&& store - step <= STORE_WINDOW
    &&& base != NO_REGISTER
    &&& counter <= MAX_FIELD_OFFSET
    &&& deadline <= MAX_FIELD_OFFSET
    &&& deadline % 8 == 0
    &&& incremented(code[step]) == Some((base, counter))
    &&& stored(code[store]) == Some((base, deadline))
    &&& loaded(code[load]) == Some((base, deadline))
}

/// Whether the code schedules discovery with `fields`.
pub open spec fn schedules(code: Seq<DecodedInstruction>, fields: SchedulerFields) -> bool {
    exists|load: int, step: int, store: int| #[trigger] reveals(code, fields, load, step, store)
}

/// Whether the code schedules discovery with `fields` and with no others.
pub open spec fn schedules_only(code: Seq<DecodedInstruction>, fields: SchedulerFields) -> bool {
    &&& schedules(code, fields)
    &&& forall|other: SchedulerFields| #[trigger] schedules(code, other) ==> other == fields
}

/// The only fields with which the code schedules discovery.
pub open spec fn scheduler_fields_of(code: Seq<DecodedInstruction>) -> Option<SchedulerFields> {
    if exists|fields: SchedulerFields| schedules_only(code, fields) {
        Some(choose|fields: SchedulerFields| schedules_only(code, fields))
    } else {
        None
    }
}

fn simple_memory(instruction: &DecodedInstruction) -> (memory: Option<(u32, u64)>)
    ensures
        memory == base_displacement(*instruction),
{
    if instruction.index == NO_REGISTER && !instruction.ip_relative {
        Some((instruction.base, instruction.displacement))
    } else {
        None
    }
}

/// The base and displacement of the memory that an instruction increments.
pub fn incremented_memory(instruction: &DecodedInstruction) -> (memory: Option<(u32, u64)>)
    ensures
        memory == incremented(*instruction),
{
    let adds: bool = instruction.mnemonic == MNEMONIC_INC || (instruction.mnemonic
        == MNEMONIC_ADD && instruction.operand_count >= 2 && instruction.kind1 >= KIND_IMMEDIATE8
        && instruction.kind1 <= KIND_IMMEDIATE32_TO64 && instruction.kind1
        != KIND_IMMEDIATE8_SECOND && instruction.immediate1 == Some(1u64));
    if adds && instruction.kind0 == KIND_MEMORY {
        simple_memory(instruction)
    } else {
        None
    }
}

/// The base and displacement of the memory that a `movsd` loads.
pub fn movsd_load(instruction: &DecodedInstruction) -> (memory: Option<(u32, u64)>)
    ensures
        memory == loaded(*instruction),
{
    if instruction.mnemonic == MNEMONIC_MOVSD && instruction.kind0 == KIND_REGISTER
        && instruction.kind1 == KIND_MEMORY {
        simple_memory(instruction)
    } else {
        None
    }
}

/// The base and displacement of the memory that a `movsd` stores.
pub fn movsd_store(instruction: &DecodedInstruction) -> (memory: Option<(u32, u64)>)
    ensures
        memory == stored(*instruction),
{
    if instruction.mnemonic == MNEMONIC_MOVSD && instruction.kind0 == KIND_MEMORY
        && instruction.kind1 == KIND_REGISTER {
        simple_memory(instruction)
    } else {
        None
    }
}

/// Finds a load of `wanted` among the instructions from `first` up to `step`.
fn find_load(
    code: &[DecodedInstruction],
    first: usize,
    step: usize,
    wanted: (u32, u64),
) -> (found: Option<usize>)
    requires
        first <= step <= code.len(),
    ensures
        match found {
            Some(load) => first <= load < step && loaded(code@[load as int]) == Some(wanted),
            None => forall|load: int|
                first <= load < step ==> loaded(#[trigger] code@[load]) != Some(wanted),
        },
{
    let mut load: usize = first;
    while load < step
        invariant
            first <= load <= step <= code.len(),
            forall|before: int|
                first <= before < load ==> loaded(#[trigger] code@[before]) != Some(wanted),
        decreases step - load,
    {
        match movsd_load(&code[load]) {
            Some(memory) => {
                if memory.0 == wanted.0 && memory.1 == wanted.1 {
                    return Some(load);
                }
            },
            None => {},
        }
        load = load + 1;
    }
    None
}

/// What is known of the fields after part of the code was searched.
struct Candidates {
    found: Option<SchedulerFields>,
    several: bool,
}

impl Candidates {
    /// The findings are real, and several findings differ.
    spec fn sound(self, code: Seq<DecodedInstruction>) -> bool {
        &&& self.found matches Some(fields) ==> schedules(code, fields)
        &&& self.several ==> exists|one: SchedulerFields, other: SchedulerFields|
            one != other && #[trigger] schedules(code, one) && #[trigger] schedules(code, other)
    }

    /// A sequence with that increment and store was taken into account.
    spec fn covers(self, code: Seq<DecodedInstruction>, step: int, store: int) -> bool {
        forall|fields: SchedulerFields, load: int| #[trigger]
            reveals(code, fields, load, step, store) ==> self.several || self.found == Some(fields)
    }

    fn record(&mut self, fields: SchedulerFields, code: Ghost<Seq<DecodedInstruction>>)
        requires
            old(self).sound(code@),
            schedules(code@, fields),
        ensures
            final(self).sound(code@),
            final(self).several || final(self).found == Some(fields),
            old(self).several ==> final(self).several,
            old(self).found is Some ==> final(self).found == old(self).found,
    {
        match self.found {
            None => {
                self.found = Some(fields);
            },
            Some(known) => {
                if known.deadline_from_secondary != fields.deadline_from_secondary
                    || known.counter_from_secondary != fields.counter_from_secondary {
                    assert(schedules(code@, known));
                    self.several = true;
                }
            },
        }
    }
}

/// Derives the scheduler's field offsets from decoded instructions.
///
/// Some fields are returned only where the code reveals exactly one pair.
pub fn scheduler_fields(code: &[DecodedInstruction]) -> (fields: Option<SchedulerFields>)
    ensures
        fields == scheduler_fields_of(code@),
{
    let mut candidates = Candidates { found: None, several: false };
    let mut step: usize = 0;
    while step < code.len()
        invariant
            step <= code.len(),
            candidates.sound(code@),
            forall|before: int, store: int|
                0 <= before < step ==> #[trigger] candidates.covers(code@, before, store),
        decreases code.len() - step,
    {
        let ghost earlier = candidates;
        let remaining: usize = code.len() - step;
        let following_end: usize = if remaining > STORE_WINDOW {
            step + STORE_WINDOW + 1
        } else {
            code.len()
        };
        let previous_start: usize = if step > LOAD_WINDOW {
            step - LOAD_WINDOW
        } else {
            0
        };
        match incremented_memory(&code[step]) {
            Some((base, counter)) if base != NO_REGISTER && counter <= MAX_FIELD_OFFSET => {
                let mut store: usize = step + 1;
                while store < following_end
                    invariant
                        step < store <= following_end <= code.len(),
                        following_end <= step + STORE_WINDOW + 1,
                        previous_start <= step,
                        step - previous_start <= LOAD_WINDOW,
                        previous_start == 0 || step - previous_start == LOAD_WINDOW,
                        incremented(code@[step as int]) == Some((base, counter)),
                        base != NO_REGISTER,
                        counter <= MAX_FIELD_OFFSET,
                        candidates.sound(code@),
                        earlier.several ==> candidates.several,
                        earlier.found is Some ==> candidates.found == earlier.found,
                        forall|at: int|
                            step < at < store ==> #[trigger] candidates.covers(
                                code@,
                                step as int,
                                at,
                            ),
                    decreases following_end - store,
                {
                    let ghost before = candidates;
                    match movsd_store(&code[store]) {
                        Some((store_base, deadline)) if store_base == base && deadline
                            <= MAX_FIELD_OFFSET && deadline % 8 == 0 => {
                            let found = find_load(code, previous_start, step, (base, deadline));
                            if let Some(load) = found {
                                let fields = SchedulerFields {
                                    deadline_from_secondary: deadline as u32,
                                    counter_from_secondary: counter as u32,
                                };
                                assert(reveals(
                                    code@,
                                    fields,
                                    load as int,
                                    step as int,
                                    store as int,
                                ));
                                candidates.record(fields, Ghost(code@));
                            }
                        },
                        _ => {},
                    }
                    proof {
                        assert forall|at: int| step < at < store + 1 implies #[trigger] candidates.covers(
                            code@,
                            step as int,
                            at,
                        ) by {
                            if at < store {
                                assert(before.covers(code@, step as int, at));
                            }
                        }
                    }
                    store = store + 1;
                }
            },
            _ => {},
        }
        proof {
            assert forall|before: int, store: int| 0 <= before < step + 1 implies #[trigger] candidates.covers(
                code@,
                before,
                store,
            ) by {
                if before < step {
                    assert(earlier.covers(code@, before, store));
                }
            }
        }
        step = step + 1;
    }
    proof {
        assert forall|fields: SchedulerFields| #[trigger] schedules(code@, fields) implies candidates.several
            || candidates.found == Some(fields) by {
            let (load, at, store) = choose|load: int, at: int, store: int| #[trigger]
                reveals(code@, fields, load, at, store);
            assert(candidates.covers(code@, at, store));
        }
    }
    if candidates.several {
        return None;
    }
    proof {
        if let Some(fields) = candidates.found {
            assert(schedules_only(code@, fields));
        }
    }
    candidates.found
}

/// What the x86-64 decoder makes of the bytes at the start of `code`, at address
/// `ip`.
pub uninterp spec fn instruction_at(code: Seq<u8>, ip: u64) -> DecodedInstruction;

/// `iced_x86::Decoder::decode`, on a fresh 64-bit decoder without options.
///
/// The instruction is a function of the bytes and of the address. At least one
/// byte and no byte beyond the slice is consumed, also where the bytes are no
/// instruction or end inside one.
#[verifier::external_body]
fn decode_instruction(code: &[u8], ip: u64) -> (decoded: DecodedInstruction)
    requires
        code@.len() > 0,
    ensures
        decoded == instruction_at(code@, ip),
        1 <= decoded.length <= code@.len(),
{
    let instruction = Decoder::with_ip(64, code, ip, DecoderOptions::NONE).decode();
    let mnemonic = instruction.mnemonic() as u32;
    let (length, operand_count) = (instruction.len(), instruction.op_count());
    let (kind0, kind1) = (instruction.op0_kind() as u32, instruction.op1_kind() as u32);
    let immediate1 = instruction.try_immediate(1).ok();
    let (base, index) = (instruction.memory_base() as u32, instruction.memory_index() as u32);
    let (displacement, ip_relative) = (instruction.memory_displacement64(), instruction.is_ip_rel_memory_operand());
    DecodedInstruction { length, mnemonic, operand_count, kind0, kind1, immediate1, base, index, displacement, ip_relative }
}

/// The instructions of a method: those of `code` in order, up to the first
/// return or to the end of the bytes.
pub open spec fn method_instructions(code: Seq<u8>, ip: u64) -> Seq<DecodedInstruction>
    decreases code.len(),
{
    let first = instruction_at(code, ip);
    if code.len() == 0 {
        Seq::empty()
    } else if first.mnemonic == MNEMONIC_RET || !(1 <= first.length <= code.len()) {
        seq![first]
    } else {
        seq![first] + method_instructions(
            code.skip(first.length as int),
            ip.wrapping_add(first.length as u64),
        )
    }
}

/// The bytes of a method that are inspected: from its start to the end of its
/// section, of the snapshot or of the largest inspected part.
pub open spec fn method_end(image: Seq<u8>, section: PeSection, method_rva: u32) -> int {
    smaller(
        smaller(section.end as int, method_rva + MAX_METHOD_BYTES),
        image.len() as int,
    )
}

/// The only fields with which the method at `method_rva` schedules discovery.
pub open spec fn method_fields(
    module_base: u64,
    image: Seq<u8>,
    sections: Seq<PeSection>,
    method_rva: u32,
) -> Option<SchedulerFields> {
    match first_running(sections, method_rva) {
        Some(section) => {
            let end = method_end(image, section, method_rva);
            if method_rva < end && module_base + method_rva <= u64::MAX {
                scheduler_fields_of(
                    method_instructions(
                        image.subrange(method_rva as int, end),
                        (module_base + method_rva) as u64,
                    ),
                )
            } else {
                None
            }
        },
        None => None,
    }
}

/// Decodes the bytes from `start` to `end` up to the first return.
fn decode_method(image: &[u8], start: usize, end: usize, ip: u64) -> (code: Vec<
    DecodedInstruction,
>)
    requires
        start <= end <= image@.len(),
    ensures
        code@ == method_instructions(image@.subrange(start as int, end as int), ip),
{
    let mut code: Vec<DecodedInstruction> = Vec::new();
    let mut at: usize = start;
    let mut address: u64 = ip;
    let ghost whole = method_instructions(image@.subrange(start as int, end as int), ip);
    assert(code@ + whole =~= whole);
    while at < end
        invariant
            start <= at <= end <= image.len(),
            whole == method_instructions(image@.subrange(start as int, end as int), ip),
            code@ + method_instructions(image@.subrange(at as int, end as int), address) == whole,
        decreases end - at,
    {
        let ghost rest = image@.subrange(at as int, end as int);
        let ghost before = code@;
        let instruction = decode_instruction(vstd::slice::slice_subrange(image, at, end), address);
        code.push(instruction);
        if instruction.mnemonic == MNEMONIC_RET {
            assert(code@ =~= before + seq![instruction]);
            return code;
        }
        at = at + instruction.length;
        address = address.wrapping_add(instruction.length as u64);
        proof {
            let after = image@.subrange(at as int, end as int);
            assert(rest.skip(instruction.length as int) =~= after);
            assert(code@ + method_instructions(after, address) =~= before + (seq![instruction]
                + method_instructions(after, address)));
        }
    }
    assert(image@.subrange(at as int, end as int) =~= Seq::empty());
    assert(code@ + Seq::<DecodedInstruction>::empty() =~= code@);
    code
}

/// Inspects one virtual method for the discovery scheduler.
pub fn analyze_scheduler_method(
    module_base: usize,
    image: &[u8],
    sections: &[PeSection],
    method_rva: u32,
) -> (fields: Option<SchedulerFields>)
    ensures
        fields == method_fields(module_base as u64, image@, sections@, method_rva),
{
    proof {
        lemma_first_running(sections@, method_rva);
    }
    let section_end: usize = match executable_end(sections, method_rva) {
        Some(end) => end as usize,
        None => {
            return None;
        },
    };
    let start: usize = method_rva as usize;
    let mut end: usize = section_end;
    if end - start > MAX_METHOD_BYTES {
        end = start + MAX_METHOD_BYTES;
    }
    if end > image.len() {
        end = image.len();
    }
    if start >= end {
        return None;
    }
    let ip: u64 = match (module_base as u64).checked_add(method_rva as u64) {
        Some(address) => address,
        None => {
            return None;
        },
    };
    let code = decode_method(image, start, end, ip);
    scheduler_fields(&code)
}

/// Fields are scheduled only by code that loads a word, later counts one up and then
/// stores the word again, all relative to one base register: the load at most 48
/// instructions before the increment and the store at most 8 behind it. The fields are
/// the displacements of these accesses.
pub proof fn law_scheduled_fields_are_those_accessed(
    code: Seq<DecodedInstruction>,
    fields: SchedulerFields,
)
    requires
        schedules(code, fields),
    ensures
        exists|load: int, step: int, store: int|
            #![trigger code[load], code[step], code[store]]
            {
                &&& 0 <= load < step < store < code.len()
                &&& step <= load + 48
                &&& store <= step + 8
                &&& code[load].mnemonic == MNEMONIC_MOVSD && code[load].kind0 == KIND_REGISTER
                    && code[load].kind1 == KIND_MEMORY
                &&& code[store].mnemonic == MNEMONIC_MOVSD && code[store].kind0 == KIND_MEMORY
                    && code[store].kind1 == KIND_REGISTER
                &&& code[step].kind0 == KIND_MEMORY
                &&& code[step].mnemonic == MNEMONIC_INC || (code[step].mnemonic == MNEMONIC_ADD
                    && code[step].immediate1 == Some(1u64))
                &&& code[load].displacement == fields.deadline_from_secondary
                &&& code[store].displacement == fields.deadline_from_secondary
                &&& code[step].displacement == fields.counter_from_secondary
                &&& code[step].base != NO_REGISTER
                &&& code[load].base == code[step].base && code[store].base == code[step].base
                &&& code[load].index == NO_REGISTER && code[step].index == NO_REGISTER
                    && code[store].index == NO_REGISTER
                &&& !code[load].ip_relative && !code[step].ip_relative && !code[store].ip_relative
                &&& fields.deadline_from_secondary % 8 == 0
                &&& fields.deadline_from_secondary <= 0x20_000
                &&& fields.counter_from_secondary <= 0x20_000
            },
{
    let (load, step, store) = choose|load: int, step: int, store: int| #[trigger]
        reveals(code, fields, load, step, store);
    assert(code[load] == code[load] && code[step] == code[step] && code[store] == code[store]);
}

/// A load, an increment and a store of that shape schedule discovery with their
/// displacements, wherever they stand and whatever stands around and between them.
pub proof fn law_such_accesses_schedule_discovery(
    code: Seq<DecodedInstruction>,
    load: int,
    step: int,
    store: int,
)
    requires
        0 <= load < step < store < code.len(),
        step <= load + 48,
        store <= step + 8,
        code[load].mnemonic == MNEMONIC_MOVSD,
        code[load].kind0 == KIND_REGISTER,
        code[load].kind1 == KIND_MEMORY,
        code[store].mnemonic == MNEMONIC_MOVSD,
        code[store].kind0 == KIND_MEMORY,
        code[store].kind1 == KIND_REGISTER,
        code[step].mnemonic == MNEMONIC_INC || {
            &&& code[step].mnemonic == MNEMONIC_ADD
            &&& code[step].operand_count >= 2
            &&& 6 <= code[step].kind1 <= 14 && code[step].kind1 != 7
            &&& code[step].immediate1 == Some(1u64)
        },
        code[step].kind0 == KIND_MEMORY,
        code[step].base != NO_REGISTER,
        code[load].base == code[step].base,
        code[store].base == code[step].base,
        code[load].index == NO_REGISTER,
        code[step].index == NO_REGISTER,
        code[store].index == NO_REGISTER,
        !code[load].ip_relative,
        !code[step].ip_relative,
        !code[store].ip_relative,
        code[load].displacement == code[store].displacement,
        code[store].displacement <= 0x20_000,
        code[store].displacement % 8 == 0,
        code[step].displacement <= 0x20_000,
    ensures
        schedules(
            code,
            SchedulerFields {
                deadline_from_secondary: code[store].displacement as u32,
                counter_from_secondary: code[step].displacement as u32,
            },
        ),
{
    let fields = SchedulerFields {
        deadline_from_secondary: code[store].displacement as u32,
        counter_from_secondary: code[step].displacement as u32,
    };
    assert(reveals(code, fields, load, step, store));
}

/// Code before and behind a scheduling sequence does not hide it.
pub proof fn law_surrounding_code_hides_no_schedule(
    before: Seq<DecodedInstruction>,
    code: Seq<DecodedInstruction>,
    behind: Seq<DecodedInstruction>,
    fields: SchedulerFields,
)
    requires
        schedules(code, fields),
    ensures
        schedules(before + code + behind, fields),
{
    let (load, step, store) = choose|load: int, step: int, store: int| #[trigger]
        reveals(code, fields, load, step, store);
    let whole = before + code + behind;
    let shift = before.len() as int;
    assert(whole[shift + load] == code[load] && whole[shift + step] == code[step] && whole[shift
        + store] == code[store]);
    assert(reveals(whole, fields, shift + load, shift + step, shift + store));
}

/// Fields are derived exactly where the code schedules discovery with them and with no
/// others.
pub proof fn law_only_unambiguous_fields_are_derived(
    code: Seq<DecodedInstruction>,
    fields: SchedulerFields,
    other: SchedulerFields,
)
    ensures
        scheduler_fields_of(code) == Some(fields) ==> schedules(code, fields),
        scheduler_fields_of(code) == Some(fields) && schedules(code, other) ==> other == fields,
        schedules(code, fields) && scheduler_fields_of(code) is None ==> exists|rival: SchedulerFields|
            rival != fields && #[trigger] schedules(code, rival),
        schedules(code, fields) && schedules(code, other) && fields != other
            ==> scheduler_fields_of(code) is None,
{
    if schedules(code, fields) && scheduler_fields_of(code) is None {
        assert(!schedules_only(code, fields));
    }
}

/// The bytes before the instruction with a number.
pub open spec fn bytes_before(code: Seq<DecodedInstruction>, count: int) -> int
    decreases count,
{
    if count <= 0 {
        0
    } else {
        bytes_before(code, count - 1) + code[count - 1].length
    }
}

/// The instructions of a method follow each other without a gap from its first byte on,
/// each decoded at its own address, and none but the last is a return.
pub proof fn law_a_method_is_decoded_without_gaps(code: Seq<u8>, ip: u64, index: int)
    requires
        0 <= index < method_instructions(code, ip).len(),
        code.len() <= u64::MAX,
    ensures
        ({
            let all = method_instructions(code, ip);
            let start = bytes_before(all, index);
            &&& 0 <= start < code.len()
            &&& all[index] == instruction_at(
                code.skip(start),
                ip.wrapping_add(start as u64),
            )
            &&& index + 1 < all.len() ==> all[index].mnemonic != MNEMONIC_RET
            &&& index + 1 == all.len() ==> all[index].mnemonic == MNEMONIC_RET || start
                + all[index].length >= code.len() || all[index].length == 0
        }),
    decreases code.len(),
{
    let all = method_instructions(code, ip);
    let first = instruction_at(code, ip);
    assert(code.skip(0) =~= code);
    if index > 0 {
        let rest = code.skip(first.length as int);
        let next = ip.wrapping_add(first.length as u64);
        let others = method_instructions(rest, next);
        assert(all =~= seq![first] + others);
        law_a_method_is_decoded_without_gaps(rest, next, index - 1);
        lemma_bytes_before(all, others, first, index);
        let start = bytes_before(others, index - 1);
        assert(rest.skip(start) =~= code.skip(first.length + start));
        assert(all[index] == others[index - 1]);
        lemma_addresses_add(ip, first.length as int, start);
    } else if all.len() == 1 && first.mnemonic != MNEMONIC_RET && 1 <= first.length <= code.len() {
        let rest = code.skip(first.length as int);
        assert(method_instructions(rest, ip.wrapping_add(first.length as u64)).len() == 0);
        assert(rest.len() == 0);
    }
}

proof fn lemma_addresses_add(ip: u64, first: int, second: int)
    requires
        0 <= first,
        0 <= second,
        first + second <= u64::MAX,
    ensures
        ip.wrapping_add(first as u64).wrapping_add(second as u64) == ip.wrapping_add(
            (first + second) as u64,
        ),
{
}

proof fn lemma_bytes_before(
    all: Seq<DecodedInstruction>,
    others: Seq<DecodedInstruction>,
    first: DecodedInstruction,
    count: int,
)
    requires
        all == seq![first] + others,
        1 <= count <= all.len(),
    ensures
        bytes_before(all, count) == first.length + bytes_before(others, count - 1),
        bytes_before(others, count - 1) >= 0,
    decreases count,
{
    if count > 1 {
        lemma_bytes_before(all, others, first, count - 1);
        assert(all[count - 1] == others[count - 2]);
    } else {
        assert(bytes_before(all, 0) == 0);
        assert(all[0] == first);
    }
}

/// A method is inspected up to the end of its section, of the snapshot or of 0x20000
/// bytes, whichever comes first.
pub proof fn law_a_method_is_inspected_to_its_end(
    image: Seq<u8>,
    section: PeSection,
    method_rva: u32,
    rva: int,
)
    ensures
        rva < method_end(image, section, method_rva) <==> rva < section.end && rva < method_rva
            + 0x20_000 && rva < image.len(),
{
}

} // verus!
