//! Classification of process handles.
//!
//! Intercepted calls must not allocate, so known handles live in a fixed table
//! with open addressing. A key of zero is an empty slot and a key of one a
//! removed entry; real handles are larger.

use vstd::prelude::*;

verus! {

/// What a handle refers to.
#[derive(Clone, Copy, Debug, PartialEq, Eq, Structural)]
pub enum HandleClass {
    /// Not looked at yet.
    Unknown,
    /// A HID device.
    Hid,
    /// Anything else.
    Other,
}

/// One slot of the table.
#[derive(Clone, Copy, Debug, PartialEq, Eq, Structural)]
pub struct HandleSlot {
    /// The handle, or one of the two reserved keys.
    pub key: usize,
    /// What the handle refers to.
    pub classification: HandleClass,
}

/// The number of slots.
pub const HANDLE_TABLE_SIZE: usize = 4096;

/// The key of a removed entry.
pub const TOMBSTONE: usize = 1;

/// How many slots may hold one handle.
pub const HANDLE_PROBE_LIMIT: usize = 16;

/// The value that stands for no file handle.
pub const INVALID_HANDLE: usize = usize::MAX;

/// Whether a value can be a tracked handle.
pub open spec fn trackable(handle: usize) -> bool {
    handle > TOMBSTONE && handle != INVALID_HANDLE
}

/// The slot at which the search for a handle begins.
#[verifier::opaque]
pub open spec fn hash_of(handle: usize) -> usize {
    let shifted = handle >> 2;
    let folded = shifted ^ (shifted >> 17);
    let spread = folded.wrapping_mul(0xed5a_d4bb);
    (spread ^ (spread >> 11)) % HANDLE_TABLE_SIZE
}

/// Spreads handles over the table.
pub fn handle_hash(handle: usize) -> (slot: usize)
    ensures
        slot == hash_of(handle),
        slot < HANDLE_TABLE_SIZE,
{
    reveal(hash_of);
    let mut value: usize = handle >> 2;
    value = value ^ (value >> 17);
    value = value.wrapping_mul(0xed5a_d4bb);
    value = value ^ (value >> 11);
    value % HANDLE_TABLE_SIZE
}

/// The slot that is looked at after `offset` others.
#[verifier::opaque]
pub open spec fn probed_slot(handle: usize, offset: int) -> int {
    (hash_of(handle) + offset) % HANDLE_TABLE_SIZE as int
}

broadcast proof fn lemma_probed_slot(handle: usize, offset: int)
    ensures
        0 <= #[trigger] probed_slot(handle, offset) < HANDLE_TABLE_SIZE,
{
    reveal(probed_slot);
}

/// The handles that are known to be HID devices.
pub open spec fn hid_handles(contents: Map<usize, HandleClass>) -> Set<usize> {
    contents.dom().filter(|handle: usize| contents[handle] == HandleClass::Hid)
}

/// What contents say of a handle. Values that are no handle count as other.
pub open spec fn class_in(contents: Map<usize, HandleClass>, handle: usize) -> HandleClass {
    if !trackable(handle) {
        HandleClass::Other
    } else if contents.contains_key(handle) {
        contents[handle]
    } else {
        HandleClass::Unknown
    }
}

/// One for a HID handle, nothing for any other.
pub open spec fn hid_share(class: HandleClass) -> nat {
    if class == HandleClass::Hid {
        1
    } else {
        0
    }
}

/// How many of the slots hold a HID handle.
spec fn hid_slots(slots: Seq<HandleSlot>) -> nat
    decreases slots.len(),
{
    if slots.len() == 0 {
        0
    } else {
        hid_slots(slots.drop_last()) + hid_slot(slots.last())
    }
}

spec fn hid_slot(slot: HandleSlot) -> nat {
    hid_share(slot.classification)
}

proof fn lemma_hid_slots_bound(slots: Seq<HandleSlot>)
    ensures
        hid_slots(slots) <= slots.len(),
    decreases slots.len(),
{
    if slots.len() > 0 {
        lemma_hid_slots_bound(slots.drop_last());
    }
}

proof fn lemma_hid_slots_update(slots: Seq<HandleSlot>, index: int, slot: HandleSlot)
    requires
        0 <= index < slots.len(),
    ensures
        hid_slots(slots.update(index, slot)) == hid_slots(slots) - hid_slot(slots[index])
            + hid_slot(slot),
    decreases slots.len(),
{
    let updated = slots.update(index, slot);
    if index == slots.len() - 1 {
        assert(updated.drop_last() =~= slots.drop_last());
    } else {
        assert(updated.drop_last() =~= slots.drop_last().update(index, slot));
        lemma_hid_slots_update(slots.drop_last(), index, slot);
    }
}

proof fn lemma_no_hid_slots(slots: Seq<HandleSlot>)
    requires
        forall|index: int|
            0 <= index < slots.len() ==> (#[trigger] slots[index]).classification
                == HandleClass::Unknown,
    ensures
        hid_slots(slots) == 0,
    decreases slots.len(),
{
    if slots.len() > 0 {
        lemma_no_hid_slots(slots.drop_last());
    }
}

/// What a search of the table came to.
enum Probe {
    /// The handle is in this slot.
    Present(usize),
    /// The handle is absent and this slot can take it.
    Free(usize, Ghost<int>),
    /// The handle is absent and every slot it may use is taken.
    Crowded,
}

/// The table of classified handles.
pub struct HandleTable {
    slots: Vec<HandleSlot>,
    hid_count: u32,
    contents: Ghost<Map<usize, HandleClass>>,
    places: Ghost<Map<usize, int>>,
}

impl View for HandleTable {
    type V = Map<usize, HandleClass>;

    /// The tracked handles and what they refer to.
    closed spec fn view(&self) -> Map<usize, HandleClass> {
        self.contents@
    }
}

impl HandleTable {
    spec fn slot(&self, index: int) -> HandleSlot {
        self.slots@[index]
    }

    /// Every tracked handle is in one slot, and the search for it meets no empty
    /// slot before that one.
    spec fn placed(&self, handle: usize) -> bool {
        let place = self.places@[handle];
        &&& trackable(handle)
        &&& 0 <= place < HANDLE_PROBE_LIMIT
        &&& self.slot(probed_slot(handle, place)) == HandleSlot {
            key: handle,
            classification: self.contents@[handle],
        }
        &&& forall|offset: int|
            0 <= offset < place ==> self.slot(#[trigger] probed_slot(handle, offset)).key != 0
    }

    /// The table is consistent.
    pub closed spec fn wf(&self) -> bool {
        &&& self.slots@.len() == HANDLE_TABLE_SIZE
        &&& self.places@.dom() == self.contents@.dom()
        &&& self.contents@.dom().finite()
        &&& forall|handle: usize| #[trigger]
            self.contents@.contains_key(handle) ==> self.placed(handle)
        &&& forall|index: int|
            0 <= index < HANDLE_TABLE_SIZE ==> {
                let slot = #[trigger] self.slot(index);
                if slot.key > TOMBSTONE {
                    &&& self.contents@.contains_key(slot.key)
                    &&& probed_slot(slot.key, self.places@[slot.key]) == index
                } else {
                    slot.classification == HandleClass::Unknown
                }
            }
        &&& self.hid_count == hid_slots(self.slots@)
        &&& self.hid_count == hid_handles(self.contents@).len()
    }

    /// Every slot that may hold the handle is taken by another handle.
    pub closed spec fn crowded(&self, handle: usize) -> bool {
        forall|offset: int|
            0 <= offset < HANDLE_PROBE_LIMIT ==> self.slot(
                #[trigger] probed_slot(handle, offset),
            ).key > TOMBSTONE
    }

    /// An empty table.
    pub fn new() -> (table: HandleTable)
        ensures
            table.wf(),
            table@ == Map::<usize, HandleClass>::empty(),
            forall|handle: usize| !#[trigger] table.crowded(handle),
    {
        let empty = HandleSlot { key: 0, classification: HandleClass::Unknown };
        let mut slots: Vec<HandleSlot> = Vec::with_capacity(HANDLE_TABLE_SIZE);
        while slots.len() < HANDLE_TABLE_SIZE
            invariant
                slots.len() <= HANDLE_TABLE_SIZE,
                forall|index: int| 0 <= index < slots.len() ==> #[trigger] slots@[index] == empty,
                empty == (HandleSlot { key: 0, classification: HandleClass::Unknown }),
            decreases HANDLE_TABLE_SIZE - slots.len(),
        {
            slots.push(empty);
        }
        let table = HandleTable {
            slots,
            hid_count: 0,
            contents: Ghost(Map::empty()),
            places: Ghost(Map::empty()),
        };
        proof {
            lemma_no_hid_slots(slots@);
            assert(hid_handles(table.contents@) =~= Set::empty());
            assert forall|handle: usize| !#[trigger] table.crowded(handle) by {
                lemma_probed_slot(handle, 0);
                assert(table.slot(probed_slot(handle, 0)).key == 0);
            }
        }
        table
    }

    fn search(&self, handle: usize) -> (found: Probe)
        requires
            self.wf(),
            trackable(handle),
        ensures
            match found {
                Probe::Present(index) => {
                    &&& self@.contains_key(handle)
                    &&& index < HANDLE_TABLE_SIZE
                    &&& index == probed_slot(handle, self.places@[handle])
                },
                Probe::Free(index, place) => {
                    &&& !self@.contains_key(handle)
                    &&& index < HANDLE_TABLE_SIZE
                    &&& 0 <= place@ < HANDLE_PROBE_LIMIT
                    &&& index == probed_slot(handle, place@)
                    &&& self.slot(index as int).key <= TOMBSTONE
                    &&& forall|offset: int|
                        0 <= offset < place@ ==> self.slot(
                            #[trigger] probed_slot(handle, offset),
                        ).key != 0
                },
                Probe::Crowded => !self@.contains_key(handle) && self.crowded(handle),
            },
    {
        let start: usize = handle_hash(handle);
        let mut insertion: Option<usize> = None;
        let mut place: Ghost<int> = Ghost(0);
        let mut offset: usize = 0;
        while offset < HANDLE_PROBE_LIMIT
            invariant
                self.wf(),
                trackable(handle),
                start == hash_of(handle),
                start < HANDLE_TABLE_SIZE,
                offset <= HANDLE_PROBE_LIMIT,
                forall|before: int|
                    0 <= before < offset ==> {
                        let slot = self.slot(#[trigger] probed_slot(handle, before));
                        slot.key != 0 && slot.key != handle && (slot.key > TOMBSTONE
                            || insertion is Some)
                    },
                match insertion {
                    Some(index) => {
                        &&& index < HANDLE_TABLE_SIZE
                        &&& 0 <= place@ < offset
                        &&& index == probed_slot(handle, place@)
                        &&& self.slot(index as int).key <= TOMBSTONE
                    },
                    None => true,
                },
            decreases HANDLE_PROBE_LIMIT - offset,
        {
            let index: usize = (start + offset) % HANDLE_TABLE_SIZE;
            let key: usize = self.slots[index].key;
            assert(index == probed_slot(handle, offset as int)) by {
                reveal(probed_slot);
            }
            assert(key == self.slot(index as int).key);
            if key == handle {
                return Probe::Present(index);
            }
            if key == 0 {
                proof {
                    if self.contents@.contains_key(handle) {
                        assert(self.placed(handle));
                        let held = self.places@[handle];
                        assert(held < offset ==> self.slot(probed_slot(handle, held)).key
                            != handle);
                    }
                }
                return match insertion {
                    Some(found) => Probe::Free(found, place),
                    None => Probe::Free(index, Ghost(offset as int)),
                };
            }
            if key == TOMBSTONE && insertion.is_none() {
                insertion = Some(index);
                proof {
                    place@ = offset as int;
                }
            }
            offset = offset + 1;
        }
        proof {
            if self.contents@.contains_key(handle) {
                assert(self.placed(handle));
                assert(self.slot(probed_slot(handle, self.places@[handle])).key != handle);
            }
        }
        match insertion {
            Some(found) => Probe::Free(found, place),
            None => Probe::Crowded,
        }
    }

    /// What is known of a handle. Values that are no handle count as other.
    pub fn lookup_handle(&self, handle: usize) -> (class: HandleClass)
        requires
            self.wf(),
        ensures
            class == class_in(self@, handle),
    {
        if handle <= TOMBSTONE || handle == INVALID_HANDLE {
            return HandleClass::Other;
        }
        match self.search(handle) {
            Probe::Present(index) => {
                assert(self.placed(handle));
                self.slots[index].classification
            },
            _ => HandleClass::Unknown,
        }
    }

    /// Records what a handle refers to, where the table has room for it.
    pub fn remember_handle(&mut self, handle: usize, classification: HandleClass)
        requires
            old(self).wf(),
        ensures
            final(self).wf(),
            if trackable(handle) && (old(self)@.contains_key(handle) || !old(self).crowded(
                handle,
            )) {
                &&& final(self)@ == old(self)@.insert(handle, classification)
                &&& hid_handles(final(self)@).len() == hid_handles(old(self)@).len() - hid_share(
                    class_in(old(self)@, handle),
                ) + hid_share(classification)
            } else {
                final(self)@ == old(self)@
            },
            final(self)@.dom().finite(),
    {
        proof {
            if trackable(handle) {
                law_remembering_replaces_one_handle(&*self, handle, classification);
            }
        }
        if handle <= TOMBSTONE || handle == INVALID_HANDLE {
            return;
        }
        let found = self.search(handle);
        let (index, place): (usize, Ghost<int>) = match found {
            Probe::Present(index) => (index, Ghost(self.places@[handle])),
            Probe::Free(index, place) => (index, place),
            Probe::Crowded => {
                return;
            },
        };
        let ghost before = *self;
        let slot = HandleSlot { key: handle, classification };
        proof {
            if before.contents@.contains_key(handle) {
                assert(before.placed(handle));
            }
            assert(before.slot(index as int).key == handle || before.slot(index as int).key
                <= TOMBSTONE);
            lemma_hid_slots_update(self.slots@, index as int, slot);
            lemma_hid_slots_bound(self.slots@);
            lemma_hid_slots_bound(self.slots@.update(index as int, slot));
            let hids = hid_handles(before.contents@);
            let next = before.contents@.insert(handle, classification);
            if classification == HandleClass::Hid {
                assert(hid_handles(next) =~= hids.insert(handle));
            } else {
                assert(hid_handles(next) =~= hids.remove(handle));
            }
        }
        let previous: HandleClass = self.slots[index].classification;
        if previous == HandleClass::Hid {
            self.hid_count = self.hid_count - 1;
        }
        if classification == HandleClass::Hid {
            self.hid_count = self.hid_count + 1;
        }
        self.slots.set(index, slot);
        proof {
            self.contents@ = self.contents@.insert(handle, classification);
            self.places@ = self.places@.insert(handle, place@);
            assert forall|other: usize| #[trigger] self.contents@.contains_key(
                other,
            ) implies self.placed(other) by {
                broadcast use lemma_probed_slot;

                if other != handle {
                    assert(before.placed(other));
                }
            }
            assert(self.places@.dom() =~= self.contents@.dom());
            assert forall|at: int| 0 <= at < HANDLE_TABLE_SIZE implies {
                let slot = #[trigger] self.slot(at);
                if slot.key > TOMBSTONE {
                    &&& self.contents@.contains_key(slot.key)
                    &&& probed_slot(slot.key, self.places@[slot.key]) == at
                } else {
                    slot.classification == HandleClass::Unknown
                }
            } by {
                assert(before.slot(at).key > TOMBSTONE || before.slot(at).classification
                    == HandleClass::Unknown);
            }
        }
    }

    /// Drops what is known of a handle.
    pub fn forget_handle(&mut self, handle: usize)
        requires
            old(self).wf(),
        ensures
            final(self).wf(),
            final(self)@ == if trackable(handle) {
                old(self)@.remove(handle)
            } else {
                old(self)@
            },
            final(self)@.dom().finite(),
            hid_handles(final(self)@).len() == hid_handles(old(self)@).len() - hid_share(
                class_in(old(self)@, handle),
            ),
    {
        proof {
            if trackable(handle) {
                law_forgetting_takes_back_one_handle(&*self, handle);
            }
        }
        if handle <= TOMBSTONE || handle == INVALID_HANDLE {
            return;
        }
        let found = self.search(handle);
        match found {
            Probe::Present(index) => {
                let ghost before = *self;
                let removed = HandleSlot {
                    key: TOMBSTONE,
                    classification: HandleClass::Unknown,
                };
                proof {
                    assert(before.placed(handle));
                    lemma_hid_slots_update(self.slots@, index as int, removed);
                    lemma_hid_slots_bound(self.slots@);
                }
                if self.slots[index].classification == HandleClass::Hid {
                    self.hid_count = self.hid_count - 1;
                }
                self.slots.set(index, removed);
                proof {
                    self.contents@ = self.contents@.remove(handle);
                    self.places@ = self.places@.remove(handle);
                    assert(self.places@.dom() =~= self.contents@.dom());
                    assert forall|other: usize| #[trigger] self.contents@.contains_key(
                        other,
                    ) implies self.placed(other) by {
                        broadcast use lemma_probed_slot;

                        assert(before.placed(other));
                    }
                    assert forall|at: int| 0 <= at < HANDLE_TABLE_SIZE implies {
                        let slot = #[trigger] self.slot(at);
                        if slot.key > TOMBSTONE {
                            &&& self.contents@.contains_key(slot.key)
                            &&& probed_slot(slot.key, self.places@[slot.key]) == at
                        } else {
                            slot.classification == HandleClass::Unknown
                        }
                    } by {
                        assert(before.slot(at).key > TOMBSTONE || before.slot(at).classification
                            == HandleClass::Unknown);
                    }
                }
            },
            _ => {
                assert(self@.remove(handle) =~= self@);
            },
        }
    }

    /// The number of tracked handles that are HID devices.
    pub fn hid_handle_count(&self) -> (count: u32)
        requires
            self.wf(),
        ensures
            count == hid_handles(self@).len(),
    {
        self.hid_count
    }
}

proof fn lemma_probes_differ(handle: usize, first: int, second: int)
    requires
        0 <= first < second < HANDLE_PROBE_LIMIT,
    ensures
        probed_slot(handle, first) != probed_slot(handle, second),
{
    reveal(probed_slot);
}

/// The handle in a slot that is probed for `handle`.
spec fn probed_key(table: &HandleTable, handle: usize, offset: int) -> usize {
    table.slot(probed_slot(handle, offset)).key
}

proof fn lemma_probed_keys_differ(table: &HandleTable, handle: usize, first: int, second: int)
    requires
        table.wf(),
        table.crowded(handle),
        0 <= first < second < HANDLE_PROBE_LIMIT,
    ensures
        probed_key(table, handle, first) != probed_key(table, handle, second),
        table@.contains_key(probed_key(table, handle, second)),
{
    lemma_probes_differ(handle, first, second);
    lemma_probed_slot(handle, first);
    lemma_probed_slot(handle, second);
    let one = table.slot(probed_slot(handle, first));
    let other = table.slot(probed_slot(handle, second));
    assert(one.key > TOMBSTONE && other.key > TOMBSTONE);
}

proof fn lemma_distinct_keys(table: &HandleTable, handle: usize, count: int)
    requires
        table.wf(),
        table.crowded(handle),
        0 <= count <= HANDLE_PROBE_LIMIT,
    ensures
        ({
            let keys = Seq::new(count as nat, |offset: int| probed_key(table, handle, offset));
            &&& keys.no_duplicates()
            &&& keys.to_set().subset_of(table@.dom())
        }),
{
    let keys = Seq::new(count as nat, |offset: int| probed_key(table, handle, offset));
    assert forall|first: int, second: int|
        0 <= first < keys.len() && 0 <= second < keys.len() && first != second implies keys[first]
        != keys[second] by {
        if first < second {
            lemma_probed_keys_differ(table, handle, first, second);
        } else {
            lemma_probed_keys_differ(table, handle, second, first);
        }
    }
    assert forall|key: usize| keys.to_set().contains(key) implies table@.dom().contains(key) by {
        let offset = choose|offset: int| 0 <= offset < keys.len() && keys[offset] == key;
        lemma_probed_slot(handle, offset);
        let slot = table.slot(probed_slot(handle, offset));
        assert(slot.key > TOMBSTONE);
    }
}

/// A table that tracks fewer handles than one handle may use slots has room for
/// every handle.
pub proof fn law_a_sparse_table_has_room(table: &HandleTable, handle: usize)
    requires
        table.wf(),
        table@.dom().len() < HANDLE_PROBE_LIMIT,
    ensures
        !table.crowded(handle),
{
    if table.crowded(handle) {
        let keys = Seq::new(
            HANDLE_PROBE_LIMIT as nat,
            |offset: int| probed_key(table, handle, offset),
        );
        lemma_distinct_keys(table, handle, HANDLE_PROBE_LIMIT as int);
        keys.unique_seq_to_set();
        vstd::set_lib::lemma_len_subset(keys.to_set(), table@.dom());
    }
}

/// A table tracks finitely many handles, so that those of HID devices can be counted.
pub proof fn law_tracked_handles_are_finite(table: &HandleTable)
    requires
        table.wf(),
    ensures
        table@.dom().finite(),
        hid_handles(table@).finite(),
{
}

/// Forgetting a handle leaves nothing known of it and everything else as it was. The
/// number of HID handles drops by one exactly where the handle was one of them, and
/// where the handle was not tracked nothing changes at all.
pub proof fn law_forgetting_takes_back_one_handle(table: &HandleTable, handle: usize)
    requires
        table.wf(),
        trackable(handle),
    ensures
        ({
            let after = table@.remove(handle);
            &&& class_in(after, handle) == HandleClass::Unknown
            &&& forall|other: usize|
                other != handle ==> #[trigger] class_in(after, other) == class_in(table@, other)
            &&& hid_handles(after).len() == hid_handles(table@).len() - hid_share(
                class_in(table@, handle),
            )
            &&& !table@.contains_key(handle) ==> after == table@
        }),
{
    let after = table@.remove(handle);
    let hids = hid_handles(table@);
    assert(hid_handles(after) =~= hids.remove(handle));
    if !table@.contains_key(handle) {
        assert(after =~= table@);
    }
    assert(hids.contains(handle) == (class_in(table@, handle) == HandleClass::Hid));
}

/// Remembering a handle makes what was recorded known of it and leaves everything else
/// as it was. The number of HID handles changes by what the handle was and is now.
pub proof fn law_remembering_replaces_one_handle(
    table: &HandleTable,
    handle: usize,
    classification: HandleClass,
)
    requires
        table.wf(),
        trackable(handle),
    ensures
        ({
            let after = table@.insert(handle, classification);
            &&& class_in(after, handle) == classification
            &&& forall|other: usize|
                other != handle ==> #[trigger] class_in(after, other) == class_in(table@, other)
            &&& hid_handles(after).len() == hid_handles(table@).len() - hid_share(
                class_in(table@, handle),
            ) + hid_share(classification)
        }),
{
    let after = table@.insert(handle, classification);
    let hids = hid_handles(table@);
    assert(hids.contains(handle) == (class_in(table@, handle) == HandleClass::Hid));
    if classification == HandleClass::Hid {
        assert(hid_handles(after) =~= hids.insert(handle));
    } else {
        assert(hid_handles(after) =~= hids.remove(handle));
    }
}

/// What is done with an intercepted call that names a handle.
#[derive(Clone, Copy, Debug, PartialEq, Eq, Structural)]
pub enum HandleDecision {
    /// Answer as a disconnected device would.
    Deny,
    /// Make the call.
    Forward,
    /// Find out what the handle refers to, record it and decide again.
    Probe,
}

impl HandleTable {
    /// Decides an intercepted read, write or control call.
    ///
    /// Only HID handles are denied, only while blocking is effective, and never
    /// to the payload's own probe of a handle.
    pub fn should_deny(&self, handle: usize, blocking: bool, own_probe: bool) -> (decision:
        HandleDecision)
        requires
            self.wf(),
        ensures
            decision == if !blocking || own_probe || !trackable(handle) {
                HandleDecision::Forward
            } else if !self@.contains_key(handle) || self@[handle] == HandleClass::Unknown {
                HandleDecision::Probe
            } else if self@[handle] == HandleClass::Hid {
                HandleDecision::Deny
            } else {
                HandleDecision::Forward
            },
    {
        if !blocking || own_probe {
            return HandleDecision::Forward;
        }
        match self.lookup_handle(handle) {
            HandleClass::Hid => HandleDecision::Deny,
            HandleClass::Other => HandleDecision::Forward,
            HandleClass::Unknown => HandleDecision::Probe,
        }
    }

    /// Records the outcome of a probe and decides the call that asked for it.
    pub fn decide_probed(&mut self, handle: usize, classification: HandleClass) -> (decision:
        HandleDecision)
        requires
            old(self).wf(),
        ensures
            final(self).wf(),
            if trackable(handle) && (old(self)@.contains_key(handle) || !old(self).crowded(
                handle,
            )) {
                final(self)@ == old(self)@.insert(handle, classification)
            } else {
                final(self)@ == old(self)@
            },
            decision == if classification == HandleClass::Hid {
                HandleDecision::Deny
            } else {
                HandleDecision::Forward
            },
    {
        self.remember_handle(handle, classification);
        match classification {
            HandleClass::Hid => HandleDecision::Deny,
            _ => HandleDecision::Forward,
        }
    }

    /// Tracks the handle that a forwarded open of a HID path returned.
    pub fn record_open(&mut self, hid_path: bool, opened: Option<usize>)
        requires
            old(self).wf(),
        ensures
            final(self).wf(),
            match opened {
                Some(handle) if hid_path && trackable(handle) && (old(self)@.contains_key(handle)
                    || !old(self).crowded(handle)) => final(self)@ == old(self)@.insert(
                    handle,
                    HandleClass::Hid,
                ),
                _ => final(self)@ == old(self)@,
            },
    {
        if hid_path {
            if let Some(handle) = opened {
                self.remember_handle(handle, HandleClass::Hid);
            }
        }
    }
}

/// Whether an intercepted open of a path must be denied.
pub fn denies_open(hid_path: bool, blocking: bool) -> (denied: bool)
    ensures
        denied == (hid_path && blocking),
{
    hid_path && blocking
}

/// The error of a denied open.
pub const ERROR_NO_SUCH_DEVICE: u32 = 433;

/// The error of a denied XInput call.
pub const ERROR_DEVICE_NOT_CONNECTED: u32 = 1167;

/// The status of a denied native call.
pub const STATUS_DEVICE_NOT_CONNECTED: i32 = -1073741667;

/// File type of a disk file.
pub const FILE_TYPE_DISK: u32 = 1;

/// File type of a pipe or socket.
pub const FILE_TYPE_PIPE: u32 = 3;

/// File type of a handle that the system cannot classify.
pub const FILE_TYPE_UNKNOWN: u32 = 0;

/// Whether a file handle may be asked for HID attributes.
///
/// Disk and pipe handles are never asked: a synchronous pipe can wait
/// indefinitely for an unrelated peer. `last_error` is the error that the query
/// of the file type left behind.
pub fn may_ask_for_attributes(file_type: u32, last_error: u32) -> (allowed: bool)
    ensures
        allowed == !(file_type == FILE_TYPE_DISK || file_type == FILE_TYPE_PIPE || (file_type
            == FILE_TYPE_UNKNOWN && last_error != 0)),
{
    !(file_type == FILE_TYPE_DISK || file_type == FILE_TYPE_PIPE || (file_type
        == FILE_TYPE_UNKNOWN && last_error != 0))
}

/// Classifies a file handle from the outcome of the attribute query, where one
/// was allowed.
pub fn probed_class(has_attributes: Option<bool>) -> (class: HandleClass)
    ensures
        class == if has_attributes == Some(true) {
            HandleClass::Hid
        } else {
            HandleClass::Other
        },
{
    match has_attributes {
        Some(true) => HandleClass::Hid,
        _ => HandleClass::Other,
    }
}

/// The lower-case form of an ASCII letter; other bytes are unchanged.
pub open spec fn ascii_lower(byte: int) -> int {
    if 65 <= byte <= 90 {
        byte + 32
    } else {
        byte
    }
}

/// Whether two code units agree in their low bytes, letters in either case.
pub open spec fn similar(left: u16, right: u16) -> bool {
    ascii_lower(left as int % 256) == ascii_lower(right as int % 256)
}

/// Whether two texts agree unit by unit.
pub open spec fn similar_text(left: Seq<u16>, right: Seq<u16>) -> bool {
    &&& left.len() == right.len()
    &&& forall|index: int| 0 <= index < left.len() ==> similar(#[trigger] left[index], right[index])
}

fn lower(byte: u16) -> (result: u16)
    requires
        byte < 256,
    ensures
        result == ascii_lower(byte as int),
{
    if 65 <= byte && byte <= 90 {
        byte + 32
    } else {
        byte
    }
}

fn units_similar(left: u16, right: u16) -> (equal: bool)
    ensures
        equal == similar(left, right),
{
    lower(left % 256) == lower(right % 256)
}

/// Compares ASCII text held in code units without regard to case.
pub fn wide_ascii_eq(left: &[u16], right: &[u16]) -> (equal: bool)
    ensures
        equal == similar_text(left@, right@),
{
    if left.len() != right.len() {
        return false;
    }
    let mut index: usize = 0;
    while index < left.len()
        invariant
            index <= left.len(),
            left.len() == right.len(),
            forall|before: int|
                0 <= before < index ==> similar(#[trigger] left@[before], right@[before]),
        decreases left.len() - index,
    {
        if !units_similar(left[index], right[index]) {
            return false;
        }
        index = index + 1;
    }
    true
}

/// The type name of file objects.
pub open spec fn file_type_name() -> Seq<u16> {
    seq![70u16, 105u16, 108u16, 101u16]
}

/// Whether an object's type name says that it is a file.
pub fn names_file_type(name: &[u16]) -> (found: bool)
    ensures
        found == similar_text(name@, file_type_name()),
{
    let expected: [u16; 4] = [70, 105, 108, 101];
    assert(expected@ =~= file_type_name());
    wide_ascii_eq(name, &expected)
}

/// Whether a Win32 path begins with a HID device prefix, `\\?\hid` or `\\.\hid`.
pub open spec fn win32_hid_path(path: Seq<u16>) -> bool {
    &&& path.len() >= 7
    &&& similar(path[0], 92)
    &&& similar(path[1], 92)
    &&& (path[2] == 63 || path[2] == 46)
    &&& similar(path[3], 92)
    &&& similar(path[4], 104)
    &&& similar(path[5], 105)
    &&& similar(path[6], 100)
}

/// Whether a Win32 path of UTF-16 units begins with a HID device prefix.
pub fn wide_has_hid_prefix(path: &[u16]) -> (found: bool)
    ensures
        found == win32_hid_path(path@),
{
    path.len() >= 7 && units_similar(path[0], 92) && units_similar(path[1], 92) && (path[2] == 63
        || path[2] == 46) && units_similar(path[3], 92) && units_similar(path[4], 104)
        && units_similar(path[5], 105) && units_similar(path[6], 100)
}

/// Whether a Win32 path of bytes begins with a HID device prefix.
pub fn narrow_has_hid_prefix(path: &[u8]) -> (found: bool)
    ensures
        found == win32_hid_path(path@.map_values(|byte: u8| byte as u16)),
{
    path.len() >= 7 && units_similar(path[0] as u16, 92) && units_similar(path[1] as u16, 92) && (
    path[2] == 63 || path[2] == 46) && units_similar(path[3] as u16, 92) && units_similar(
        path[4] as u16,
        104,
    ) && units_similar(path[5] as u16, 105) && units_similar(path[6] as u16, 100)
}

/// Whether a native object name begins with a HID device prefix, `\??\hid` or
/// `\\?\hid`.
pub open spec fn native_hid_name(name: Seq<u16>) -> bool {
    &&& name.len() >= 7
    &&& {
        ||| similar_text(name.take(7), seq![92u16, 63u16, 63u16, 92u16, 104u16, 105u16, 100u16])
        ||| similar_text(name.take(7), seq![92u16, 92u16, 63u16, 92u16, 104u16, 105u16, 100u16])
    }
}

/// Whether a native object name begins with a HID device prefix.
pub fn native_has_hid_prefix(name: &[u16]) -> (found: bool)
    ensures
        found == native_hid_name(name@),
{
    if name.len() < 7 {
        return false;
    }
    let native: [u16; 7] = [92, 63, 63, 92, 104, 105, 100];
    let dos: [u16; 7] = [92, 92, 63, 92, 104, 105, 100];
    assert(native@ =~= seq![92u16, 63u16, 63u16, 92u16, 104u16, 105u16, 100u16]);
    assert(dos@ =~= seq![92u16, 92u16, 63u16, 92u16, 104u16, 105u16, 100u16]);
    let start = vstd::slice::slice_subrange(name, 0, 7);
    assert(start@ =~= name@.take(7));
    wide_ascii_eq(start, &native) || wide_ascii_eq(start, &dos)
}

/// Recognition does not depend on the case of letters, in any notation: two names that
/// differ only in the case of ASCII letters get the same answer.
pub proof fn law_case_does_not_hide_a_device(name: Seq<u16>, other: Seq<u16>)
    requires
        name.len() == other.len(),
        forall|index: int|
            #![trigger name[index]]
            #![trigger other[index]]
            0 <= index < name.len() ==> name[index] == other[index] || (65 <= name[index] <= 90
                && other[index] == name[index] + 32) || (97 <= name[index] <= 122 && other[index]
                == name[index] - 32),
    ensures
        native_hid_name(name) == native_hid_name(other),
        win32_hid_path(name) == win32_hid_path(other),
        similar_text(name, other),
{
    if name.len() >= 7 {
        assert(name.take(7)[0] == name[0] && name.take(7)[1] == name[1] && name.take(7)[2]
            == name[2] && name.take(7)[3] == name[3] && name.take(7)[4] == name[4] && name.take(
            7,
        )[5] == name[5] && name.take(7)[6] == name[6]);
        lemma_native_hid_name(name);
        lemma_native_hid_name(other);
    }
}

proof fn lemma_native_hid_name(name: Seq<u16>)
    ensures
        native_hid_name(name) <==> {
            &&& name.len() >= 7
            &&& similar(name[0], 92)
            &&& similar(name[1], 63) || similar(name[1], 92)
            &&& similar(name[2], 63)
            &&& similar(name[3], 92)
            &&& similar(name[4], 104)
            &&& similar(name[5], 105)
            &&& similar(name[6], 100)
        },
{
    if name.len() >= 7 {
        let start = name.take(7);
        let native = seq![92u16, 63u16, 63u16, 92u16, 104u16, 105u16, 100u16];
        let dos = seq![92u16, 92u16, 63u16, 92u16, 104u16, 105u16, 100u16];
        if native_hid_name(name) {
            let found = if similar_text(start, native) {
                native
            } else {
                dos
            };
            assert(similar(start[0], found[0]) && similar(start[1], found[1]) && similar(
                start[2],
                found[2],
            ) && similar(start[3], found[3]) && similar(start[4], found[4]) && similar(
                start[5],
                found[5],
            ) && similar(start[6], found[6]));
        }
    }
}

/// Every name that begins with `\??\` or `\\?\` and `hid` in any of its eight spellings
/// is a native HID name, whatever follows, and every path that begins with `\\?\` or
/// `\\.\` and `hid` a Win32 one.
pub proof fn law_every_spelling_of_a_device_is_recognized(
    first: u16,
    second: u16,
    third: u16,
    rest: Seq<u16>,
)
    requires
        first == 72 || first == 104,
        second == 73 || second == 105,
        third == 68 || third == 100,
    ensures
        native_hid_name(seq![92u16, 63u16, 63u16, 92u16, first, second, third] + rest),
        native_hid_name(seq![92u16, 92u16, 63u16, 92u16, first, second, third] + rest),
        win32_hid_path(seq![92u16, 92u16, 63u16, 92u16, first, second, third] + rest),
        win32_hid_path(seq![92u16, 92u16, 46u16, 92u16, first, second, third] + rest),
{
    lemma_native_hid_name(seq![92u16, 63u16, 63u16, 92u16, first, second, third] + rest);
    lemma_native_hid_name(seq![92u16, 92u16, 63u16, 92u16, first, second, third] + rest);
}

/// Nothing else is taken for a device: an ASCII name that is recognized begins with one of
/// the prefixes, and a name that is too short is not recognized.
pub proof fn law_only_device_prefixes_are_recognized(name: Seq<u16>)
    requires
        forall|index: int| 0 <= index < name.len() ==> #[trigger] name[index] < 128,
    ensures
        native_hid_name(name) ==> {
            &&& name.len() >= 7
            &&& name[0] == 92 && (name[1] == 63 || name[1] == 92) && name[2] == 63 && name[3] == 92
            &&& name[4] == 72 || name[4] == 104
            &&& name[5] == 73 || name[5] == 105
            &&& name[6] == 68 || name[6] == 100
        },
        win32_hid_path(name) ==> {
            &&& name.len() >= 7
            &&& name[0] == 92 && name[1] == 92 && (name[2] == 63 || name[2] == 46) && name[3] == 92
            &&& name[4] == 72 || name[4] == 104
            &&& name[5] == 73 || name[5] == 105
            &&& name[6] == 68 || name[6] == 100
        },
{
    lemma_native_hid_name(name);
}

/// A name that is recognized stays so whatever is appended to it, and one that has at
/// least seven units is judged by these alone.
pub proof fn law_a_device_is_told_by_its_first_units(name: Seq<u16>, rest: Seq<u16>)
    requires
        name.len() >= 7,
    ensures
        native_hid_name(name + rest) == native_hid_name(name),
        win32_hid_path(name + rest) == win32_hid_path(name),
{
    lemma_native_hid_name(name + rest);
    lemma_native_hid_name(name);
}

/// Every value above one but the invalid handle can be tracked, and no other can: those
/// count as other, so that no call on them is ever denied or probed.
pub proof fn law_every_real_handle_is_trackable(
    handle: usize,
    contents: Map<usize, HandleClass>,
)
    ensures
        trackable(handle) <==> handle > 1 && handle != usize::MAX,
        !trackable(handle) ==> class_in(contents, handle) == HandleClass::Other,
        trackable(handle) && !contents.contains_key(handle) ==> class_in(contents, handle)
            == HandleClass::Unknown,
        hid_handles(contents).contains(handle) <==> contents.contains_key(handle)
            && contents[handle] == HandleClass::Hid,
        hid_share(HandleClass::Hid) == 1 && hid_share(HandleClass::Other) == 0 && hid_share(
            HandleClass::Unknown,
        ) == 0,
{
}

/// A handle may stand in sixteen different slots, one behind the other.
pub proof fn law_a_handle_has_sixteen_slots(handle: usize, first: int, second: int)
    requires
        0 <= first < second < 16,
    ensures
        0 <= probed_slot(handle, first) < 4096,
        probed_slot(handle, first) != probed_slot(handle, second),
        probed_slot(handle, first + 1) == if probed_slot(handle, first) == 4095 {
            0
        } else {
            probed_slot(handle, first) + 1
        },
{
    lemma_probes_differ(handle, first, second);
    reveal(probed_slot);
}

/// A type name is that of files exactly where it is `File` in any case.
pub proof fn law_files_are_told_by_their_type_name(name: Seq<u16>)
    requires
        forall|index: int| 0 <= index < name.len() ==> #[trigger] name[index] < 128,
    ensures
        similar_text(name, file_type_name()) <==> {
            &&& name.len() == 4
            &&& name[0] == 70 || name[0] == 102
            &&& name[1] == 73 || name[1] == 105
            &&& name[2] == 76 || name[2] == 108
            &&& name[3] == 69 || name[3] == 101
        },
{
    let expected = file_type_name();
    if similar_text(name, expected) {
        assert(similar(name[0], expected[0]) && similar(name[1], expected[1]) && similar(
            name[2],
            expected[2],
        ) && similar(name[3], expected[3]));
    }
}

} // verus!
