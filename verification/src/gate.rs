//! Lease accounting of the resident payload.
//!
//! Every accepted connection opens with one request. An acquired connection owns
//! one block lease or one pass-through claim until it ends, by an explicit
//! release or by closing, so a crashed owner releases like any other. Blocking is
//! effective while a lease is held and no claim overrides it.

use vstd::prelude::*;

use crate::protocol::{
    law_request_round_trip,
    has_capability, Command, Request, Response, ResultCode, CAPABILITY_INTERNAL_RECOVERY,
    CAPABILITY_PASS_THROUGH, CAPABILITY_PASS_THROUGH_ACTIVE, PROTOCOL_MAGIC, PROTOCOL_VERSION,
    REQUEST_SIZE,
};

verus! {

/// What an acquired connection owns.
#[derive(Clone, Copy, Debug, PartialEq, Eq, Structural)]
pub enum Ownership {
    /// One block lease.
    Lease,
    /// One pass-through claim.
    PassThrough,
}

/// What must be done when blocking becomes effective or stops being so.
#[derive(Clone, Copy, Debug, PartialEq, Eq, Structural)]
pub enum Effect {
    /// Nothing changed for the process.
    Nothing,
    /// Blocking became effective: renew the search budgets and close the HID
    /// handles that the process holds.
    Revoke,
    /// Blocking ended: have the process look for controllers again.
    Rediscover,
}

/// How many leases and claims are held.
pub struct Counts {
    /// Number of block leases.
    pub leases: nat,
    /// Number of pass-through claims.
    pub claims: nat,
}

impl Counts {
    /// Whether access to controllers is denied.
    pub open spec fn blocking(self) -> bool {
        self.leases > 0 && self.claims == 0
    }

    /// The counts after something more is owned.
    pub open spec fn with(self, owned: Option<Ownership>) -> Counts {
        match owned {
            Some(Ownership::Lease) => Counts { leases: self.leases + 1, ..self },
            Some(Ownership::PassThrough) => Counts { claims: self.claims + 1, ..self },
            None => self,
        }
    }

    /// The counts after an owner is gone.
    pub open spec fn without(self, owned: Ownership) -> Counts {
        match owned {
            Ownership::Lease => Counts { leases: (self.leases - 1) as nat, ..self },
            Ownership::PassThrough => Counts { claims: (self.claims - 1) as nat, ..self },
        }
    }
}

/// What a change of the counts asks for.
pub open spec fn effect_of(before: Counts, after: Counts) -> Effect {
    if !before.blocking() && after.blocking() {
        Effect::Revoke
    } else if before.blocking() && !after.blocking() {
        Effect::Rediscover
    } else {
        Effect::Nothing
    }
}

/// Whether a connection's first message is a well-formed request for `command`.
pub open spec fn opens_with(message: Option<Seq<u8>>, command: Command) -> bool {
    match message {
        Some(bytes) => match Request::from_wire(bytes) {
            Some(request) => request.asks(command),
            None => false,
        },
        None => false,
    }
}

/// What a connection comes to own by its first message.
pub open spec fn granted(message: Option<Seq<u8>>, hooks_installed: bool) -> Option<Ownership> {
    if opens_with(message, Command::AcquireLease) && hooks_installed {
        Some(Ownership::Lease)
    } else if opens_with(message, Command::AcquirePassThrough) {
        Some(Ownership::PassThrough)
    } else {
        None
    }
}

/// How a connection's first message is answered.
pub open spec fn answered(message: Option<Seq<u8>>, hooks_installed: bool) -> ResultCode {
    if opens_with(message, Command::AcquireLease) {
        if hooks_installed {
            ResultCode::Success
        } else {
            ResultCode::HookInstallFailed
        }
    } else if opens_with(message, Command::QueryStatus) || opens_with(
        message,
        Command::AcquirePassThrough,
    ) {
        ResultCode::Success
    } else {
        ResultCode::InvalidRequest
    }
}

/// Whether a later message releases explicitly what the connection owns.
pub open spec fn releases(message: Option<Seq<u8>>, owned: Ownership) -> bool {
    match message {
        Some(bytes) => bytes.len() == REQUEST_SIZE && opens_with(
            message,
            match owned {
                Ownership::Lease => Command::ReleaseLease,
                Ownership::PassThrough => Command::ReleasePassThrough,
            },
        ),
        None => false,
    }
}

/// A bit that is set or not.
pub open spec fn bit_if(set: bool, bit: int) -> int {
    if set {
        bit
    } else {
        0
    }
}

/// How a connection begins.
#[derive(Clone, Copy, Debug, PartialEq, Eq, Structural)]
pub struct Opening {
    /// What the reply reports.
    pub result: ResultCode,
    /// What the connection owns until it ends.
    pub owned: Option<Ownership>,
    /// What must be done before the reply is sent.
    pub effect: Effect,
}

/// How an acquired connection ends.
#[derive(Clone, Copy, Debug, PartialEq, Eq, Structural)]
pub struct Ending {
    /// What must be done before the connection is closed.
    pub effect: Effect,
    /// Whether the client waits for a reply.
    pub reply: bool,
}

/// The leases and claims that are held.
#[derive(Clone, Copy, Debug, PartialEq, Eq, Structural)]
pub struct LeaseState {
    leases: u32,
    claims: u32,
}

impl View for LeaseState {
    type V = Counts;

    closed spec fn view(&self) -> Counts {
        Counts { leases: self.leases as nat, claims: self.claims as nat }
    }
}

proof fn lemma_capability_bits(bits: u16)
    by (bit_vector)
    requires
        bits == 2 || bits == 3 || bits == 6 || bits == 7,
    ensures
        (bits & 1 != 0) == (bits == 3 || bits == 7),
        bits & 2 != 0,
        (bits & 4 != 0) == (bits == 6 || bits == 7),
{
}

/// Whether a connection's first message can only be answered once the hooks are
/// installed.
pub fn needs_hooks(message: Option<&[u8]>) -> (needed: bool)
    ensures
        needed == opens_with(
            match message {
                Some(bytes) => Some(bytes@),
                None => None,
            },
            Command::AcquireLease,
        ),
{
    match message {
        Some(bytes) => match Request::decode(bytes) {
            Some(request) => request.is_for(Command::AcquireLease),
            None => false,
        },
        None => false,
    }
}

impl LeaseState {
    /// No lease and no claim.
    pub fn new() -> (state: LeaseState)
        ensures
            state@ == (Counts { leases: 0, claims: 0 }),
    {
        LeaseState { leases: 0, claims: 0 }
    }

    /// The number of block leases that are held.
    pub fn lease_count(&self) -> (count: u32)
        ensures
            count == self@.leases,
    {
        self.leases
    }

    /// The number of pass-through claims that are held.
    pub fn claim_count(&self) -> (count: u32)
        ensures
            count == self@.claims,
    {
        self.claims
    }

    /// Whether access to controllers is denied.
    pub fn blocking(&self) -> (result: bool)
        ensures
            result == self@.blocking(),
    {
        self.leases > 0 && self.claims == 0
    }

    fn effect_since(&self, before: bool, counts: Ghost<Counts>) -> (effect: Effect)
        requires
            before == counts@.blocking(),
        ensures
            effect == effect_of(counts@, self@),
    {
        let after: bool = self.blocking();
        if !before && after {
            Effect::Revoke
        } else if before && !after {
            Effect::Rediscover
        } else {
            Effect::Nothing
        }
    }

    /// Handles the first message of a connection; `None` where none could be read.
    ///
    /// `hooks_installed` matters only where [`needs_hooks`] holds.
    pub fn open(&mut self, message: Option<&[u8]>, hooks_installed: bool) -> (opening: Opening)
        requires
            old(self)@.leases < u32::MAX,
            old(self)@.claims < u32::MAX,
        ensures
            ({
                let bytes = match message {
                    Some(bytes) => Some(bytes@),
                    None => None,
                };
                &&& opening.result == answered(bytes, hooks_installed)
                &&& opening.owned == granted(bytes, hooks_installed)
                &&& final(self)@ == old(self)@.with(opening.owned)
                &&& opening.effect == effect_of(old(self)@, final(self)@)
            }),
    {
        let ghost counts = self@;
        let before: bool = self.blocking();
        let request: Option<Request> = match message {
            Some(bytes) => Request::decode(bytes),
            None => None,
        };
        let (result, owned): (ResultCode, Option<Ownership>) = match request {
            Some(request) => {
                if request.is_for(Command::AcquireLease) {
                    if hooks_installed {
                        (ResultCode::Success, Some(Ownership::Lease))
                    } else {
                        (ResultCode::HookInstallFailed, None)
                    }
                } else if request.is_for(Command::AcquirePassThrough) {
                    (ResultCode::Success, Some(Ownership::PassThrough))
                } else if request.is_for(Command::QueryStatus) {
                    (ResultCode::Success, None)
                } else {
                    (ResultCode::InvalidRequest, None)
                }
            },
            None => (ResultCode::InvalidRequest, None),
        };
        match owned {
            Some(Ownership::Lease) => {
                self.leases = self.leases + 1;
            },
            Some(Ownership::PassThrough) => {
                self.claims = self.claims + 1;
            },
            None => {},
        }
        let effect = self.effect_since(before, Ghost(counts));
        Opening { result, owned, effect }
    }

    /// Ends an acquired connection after its next message, or after it closed.
    pub fn end(&mut self, owned: Ownership, message: Option<&[u8]>) -> (ending: Ending)
        requires
            owned == Ownership::Lease ==> old(self)@.leases > 0,
            owned == Ownership::PassThrough ==> old(self)@.claims > 0,
        ensures
            final(self)@ == old(self)@.without(owned),
            ending.effect == effect_of(old(self)@, final(self)@),
            ending.reply == releases(
                match message {
                    Some(bytes) => Some(bytes@),
                    None => None,
                },
                owned,
            ),
    {
        let ghost counts = self@;
        let before: bool = self.blocking();
        let reply: bool = match message {
            Some(bytes) => match Request::decode(bytes) {
                Some(request) => bytes.len() == REQUEST_SIZE && request.is_for(
                    match owned {
                        Ownership::Lease => Command::ReleaseLease,
                        Ownership::PassThrough => Command::ReleasePassThrough,
                    },
                ),
                None => false,
            },
            None => false,
        };
        match owned {
            Ownership::Lease => {
                self.leases = self.leases - 1;
            },
            Ownership::PassThrough => {
                self.claims = self.claims - 1;
            },
        }
        let effect = self.effect_since(before, Ghost(counts));
        Ending { effect, reply }
    }

    /// Reports the state in a reply.
    ///
    /// `recoverable` says whether the controller thread's scheduler was found.
    pub fn response(
        &self,
        result: ResultCode,
        recoverable: bool,
        hid_handles: u32,
        revoked_handles: u32,
    ) -> (response: Response)
        ensures
            response.magic == PROTOCOL_MAGIC,
            response.version == PROTOCOL_VERSION,
            response.capabilities == bit_if(recoverable, CAPABILITY_INTERNAL_RECOVERY as int)
                + CAPABILITY_PASS_THROUGH + bit_if(
                self@.claims > 0,
                CAPABILITY_PASS_THROUGH_ACTIVE as int,
            ),
            has_capability(response.capabilities, CAPABILITY_INTERNAL_RECOVERY) == recoverable,
            has_capability(response.capabilities, CAPABILITY_PASS_THROUGH),
            has_capability(response.capabilities, CAPABILITY_PASS_THROUGH_ACTIVE) == (self@.claims
                > 0),
            response.result == result.number(),
            response.lease_count == self@.leases,
            response.hid_handle_count == hid_handles,
            response.last_revoked_handle_count == revoked_handles,
    {
        let mut capabilities: u16 = CAPABILITY_PASS_THROUGH;
        if recoverable {
            capabilities = capabilities + CAPABILITY_INTERNAL_RECOVERY;
        }
        if self.claims > 0 {
            capabilities = capabilities + CAPABILITY_PASS_THROUGH_ACTIVE;
        }
        proof {
            lemma_capability_bits(capabilities);
        }
        Response {
            magic: PROTOCOL_MAGIC,
            version: PROTOCOL_VERSION,
            capabilities,
            result: result.code(),
            lease_count: self.leases,
            hid_handle_count: hid_handles,
            last_revoked_handle_count: revoked_handles,
        }
    }
}

/// Something that happens to a connection.
pub enum Event {
    /// The connection was accepted and its first message was handled.
    Opened {
        /// The connection.
        connection: int,
        /// Its first message.
        message: Option<Seq<u8>>,
        /// Whether the hooks are installed.
        hooks_installed: bool,
    },
    /// The connection ended, by whatever message or by closing.
    Ended {
        /// The connection.
        connection: int,
    },
}

/// The counts, and what the open connections own.
pub struct GateModel {
    /// The leases and claims that are counted.
    pub counts: Counts,
    /// What each open connection owns.
    pub owners: Map<int, Ownership>,
}

impl GateModel {
    /// Nothing is owned at the start.
    pub open spec fn initial() -> GateModel {
        GateModel { counts: Counts { leases: 0, claims: 0 }, owners: Map::empty() }
    }

    /// The connections that own what is asked for.
    pub open spec fn owners_of(self, owned: Ownership) -> Set<int> {
        self.owners.dom().filter(|connection: int| self.owners[connection] == owned)
    }

    /// What happens to the counts and owners. A connection opens once, and one
    /// that owns nothing leaves nothing to take back.
    pub open spec fn after(self, event: Event) -> GateModel {
        match event {
            Event::Opened { connection, message, hooks_installed } => match granted(
                message,
                hooks_installed,
            ) {
                Some(owned) if !self.owners.contains_key(connection) => GateModel {
                    counts: self.counts.with(Some(owned)),
                    owners: self.owners.insert(connection, owned),
                },
                _ => self,
            },
            Event::Ended { connection } => if self.owners.contains_key(connection) {
                GateModel {
                    counts: self.counts.without(self.owners[connection]),
                    owners: self.owners.remove(connection),
                }
            } else {
                self
            },
        }
    }

    /// The state after a whole history.
    pub open spec fn after_all(events: Seq<Event>) -> GateModel
        decreases events.len(),
    {
        if events.len() == 0 {
            GateModel::initial()
        } else {
            GateModel::after_all(events.drop_last()).after(events.last())
        }
    }
}

/// After any history, each count is the number of open connections that own such
/// a lease or claim: every acquired connection is counted once, and its end takes
/// back exactly that.
pub proof fn law_counts_are_the_open_owners(events: Seq<Event>)
    ensures
        ({
            let model = GateModel::after_all(events);
            &&& model.owners.dom().finite()
            &&& model.counts.leases == model.owners_of(Ownership::Lease).len()
            &&& model.counts.claims == model.owners_of(Ownership::PassThrough).len()
        }),
    decreases events.len(),
{
    if events.len() == 0 {
        let model = GateModel::initial();
        assert(model.owners_of(Ownership::Lease) =~= Set::empty());
        assert(model.owners_of(Ownership::PassThrough) =~= Set::empty());
    } else {
        law_counts_are_the_open_owners(events.drop_last());
        let before = GateModel::after_all(events.drop_last());
        let after = before.after(events.last());
        let leases = before.owners_of(Ownership::Lease);
        let claims = before.owners_of(Ownership::PassThrough);
        match events.last() {
            Event::Opened { connection, message, hooks_installed } => {
                match granted(message, hooks_installed) {
                    Some(owned) if !before.owners.contains_key(connection) => {
                        if owned == Ownership::Lease {
                            assert(after.owners_of(Ownership::Lease) =~= leases.insert(connection));
                            assert(after.owners_of(Ownership::PassThrough) =~= claims);
                        } else {
                            assert(after.owners_of(Ownership::Lease) =~= leases);
                            assert(after.owners_of(Ownership::PassThrough) =~= claims.insert(
                                connection,
                            ));
                        }
                    },
                    _ => {},
                }
            },
            Event::Ended { connection } => {
                if before.owners.contains_key(connection) {
                    if before.owners[connection] == Ownership::Lease {
                        assert(leases.contains(connection));
                        assert(after.owners_of(Ownership::Lease) =~= leases.remove(connection));
                        assert(after.owners_of(Ownership::PassThrough) =~= claims);
                    } else {
                        assert(claims.contains(connection));
                        assert(after.owners_of(Ownership::Lease) =~= leases);
                        assert(after.owners_of(Ownership::PassThrough) =~= claims.remove(
                            connection,
                        ));
                    }
                }
            },
        }
    }
}

/// After any history, blocking is effective exactly while some open connection
/// owns a lease and none owns a claim.
pub proof fn law_blocking_follows_the_owners(events: Seq<Event>)
    ensures
        ({
            let model = GateModel::after_all(events);
            model.counts.blocking() <==> {
                &&& exists|connection: int|
                    #![trigger model.owners[connection]]
                    model.owners.contains_key(connection) && model.owners[connection]
                        == Ownership::Lease
                &&& forall|connection: int|
                    #![trigger model.owners[connection]]
                    model.owners.contains_key(connection) ==> model.owners[connection]
                        == Ownership::Lease
            }
        }),
{
    law_counts_are_the_open_owners(events);
    let model = GateModel::after_all(events);
    let leases = model.owners_of(Ownership::Lease);
    let claims = model.owners_of(Ownership::PassThrough);
    if model.counts.leases > 0 {
        let connection = leases.choose();
        assert(leases.contains(connection));
        assert(model.owners[connection] == Ownership::Lease);
    }
    if model.counts.claims > 0 {
        let connection = claims.choose();
        assert(claims.contains(connection));
        assert(model.owners[connection] == Ownership::PassThrough);
    } else {
        assert(claims =~= Set::empty());
        assert forall|connection: int|
            #![trigger model.owners[connection]]
            model.owners.contains_key(connection) implies model.owners[connection]
            == Ownership::Lease by {
            assert(!claims.contains(connection));
        }
    }
    if exists|connection: int|
        #![trigger model.owners[connection]]
        model.owners.contains_key(connection) && model.owners[connection] == Ownership::Lease {
        let connection = choose|connection: int|
            #![trigger model.owners[connection]]
            model.owners.contains_key(connection) && model.owners[connection] == Ownership::Lease;
        assert(leases.contains(connection));
        if leases.len() == 0 {
            assert(leases =~= Set::empty());
        }
    }
}

/// After any history, an open owner's end finds its lease or claim counted, so
/// the connection can always be ended.
pub proof fn law_an_owner_can_always_end(events: Seq<Event>, connection: int)
    requires
        GateModel::after_all(events).owners.contains_key(connection),
    ensures
        ({
            let model = GateModel::after_all(events);
            match model.owners[connection] {
                Ownership::Lease => model.counts.leases > 0,
                Ownership::PassThrough => model.counts.claims > 0,
            }
        }),
{
    law_counts_are_the_open_owners(events);
    let model = GateModel::after_all(events);
    let same = model.owners_of(model.owners[connection]);
    assert(same.contains(connection));
    if same.len() == 0 {
        assert(same =~= Set::empty());
    }
}

/// A connection is taken back once: a second end changes nothing.
pub proof fn law_an_end_counts_once(model: GateModel, connection: int)
    ensures
        ({
            let ended = Event::Ended { connection };
            model.after(ended).after(ended) == model.after(ended)
        }),
{
}

/// What is refused changes nothing.
pub proof fn law_a_refused_request_changes_nothing(
    model: GateModel,
    connection: int,
    message: Option<Seq<u8>>,
    hooks_installed: bool,
)
    requires
        answered(message, hooks_installed) != ResultCode::Success,
    ensures
        model.after(Event::Opened { connection, message, hooks_installed }) == model,
{
}

/// Claims never change the number of leases, nor leases the number of claims.
pub proof fn law_leases_and_claims_are_counted_apart(counts: Counts)
    ensures
        counts.with(Some(Ownership::PassThrough)).leases == counts.leases,
        counts.without(Ownership::PassThrough).leases == counts.leases,
        counts.with(Some(Ownership::Lease)).claims == counts.claims,
        counts.without(Ownership::Lease).claims == counts.claims,
{
}

/// A claim overrides all leases without consuming them: blocking ends with the
/// first claim, and the last claim's end restores it exactly where leases remain.
pub proof fn law_a_claim_overrides_and_restores(counts: Counts)
    ensures
        !counts.with(Some(Ownership::PassThrough)).blocking(),
        counts.with(Some(Ownership::PassThrough)).without(Ownership::PassThrough) == counts,
        counts.claims == 1 ==> counts.without(Ownership::PassThrough).blocking() == (counts.leases
            > 0),
        counts.claims > 1 ==> !counts.without(Ownership::PassThrough).blocking(),
{
}

/// Handles are revoked exactly when blocking becomes effective, and controllers
/// are looked for again exactly when it ends.
pub proof fn law_effects_mark_the_turning_points(before: Counts, after: Counts)
    ensures
        effect_of(before, after) == Effect::Revoke <==> !before.blocking() && after.blocking(),
        effect_of(before, after) == Effect::Rediscover <==> before.blocking() && !after.blocking(),
        effect_of(before, after) == Effect::Nothing <==> before.blocking() == after.blocking(),
{
}

/// Whether the hooks are installed, and whether that was tried.
///
/// A failure is remembered, so that a broken environment does not repeat an
/// expensive installation for every lease.
#[derive(Clone, Copy, Debug, PartialEq, Eq, Structural)]
pub struct HookInstallation {
    /// The outcome of the only attempt.
    pub outcome: Option<bool>,
}

impl HookInstallation {
    /// Nothing was tried yet.
    pub fn new() -> (state: HookInstallation)
        ensures
            state.outcome is None,
    {
        HookInstallation { outcome: None }
    }

    /// The remembered outcome, or `None` where the hooks must be installed now.
    pub fn known(&self) -> (outcome: Option<bool>)
        ensures
            outcome == self.outcome,
    {
        self.outcome
    }

    /// Remembers the outcome of the first attempt, and tells whether the search
    /// for the recovery layout is worth starting.
    pub fn record(&mut self, installed: bool) -> (warm_up: bool)
        ensures
            final(self).outcome == match old(self).outcome {
                Some(known) => Some(known),
                None => Some(installed),
            },
            warm_up == (old(self).outcome is None && installed),
    {
        match self.outcome {
            Some(_) => false,
            None => {
                self.outcome = Some(installed);
                installed
            },
        }
    }
}

/// A well-formed request for a command, as it stands at the start of a message.
spec fn request_for(number: u16) -> Request {
    Request { magic: 0x5349_4754, version: 1, command: number }
}

proof fn lemma_opening(number: u16, rest: Seq<u8>, command: Command)
    ensures
        opens_with(Some(request_for(number).wire() + rest), command) == (number
            == command.number()),
{
    law_request_round_trip(request_for(number), rest);
}

/// A well-formed status request succeeds in every state, whether or not the hooks are
/// installed and whatever follows it. Nothing is granted, no count changes and nothing
/// is asked of the process.
pub proof fn law_a_status_request_succeeds_and_changes_nothing(
    counts: Counts,
    hooks_installed: bool,
    rest: Seq<u8>,
)
    ensures
        ({
            let request = Request { magic: 0x5349_4754, version: 1, command: 2 };
            let message = Some(request.wire() + rest);
            let after = counts.with(granted(message, hooks_installed));
            &&& answered(message, hooks_installed) == ResultCode::Success
            &&& granted(message, hooks_installed) is None
            &&& after == counts
            &&& effect_of(counts, after) == Effect::Nothing
        }),
{
    lemma_opening(2, rest, Command::AcquireLease);
    lemma_opening(2, rest, Command::QueryStatus);
    lemma_opening(2, rest, Command::AcquirePassThrough);
}

/// A well-formed request for a lease adds one lease where the hooks are installed. Where
/// they could not be installed it is told so, and nothing changes.
pub proof fn law_a_lease_request_needs_the_hooks(counts: Counts, rest: Seq<u8>)
    ensures
        ({
            let request = Request { magic: 0x5349_4754, version: 1, command: 1 };
            let message = Some(request.wire() + rest);
            let after = counts.with(granted(message, true));
            &&& answered(message, true) == ResultCode::Success
            &&& after.leases == counts.leases + 1
            &&& after.claims == counts.claims
            &&& effect_of(counts, after) == Effect::Revoke <==> counts.leases == 0 && counts.claims
                == 0
            &&& answered(message, false) == ResultCode::HookInstallFailed
            &&& counts.with(granted(message, false)) == counts
        }),
{
    lemma_opening(1, rest, Command::AcquireLease);
    lemma_opening(1, rest, Command::AcquirePassThrough);
}

/// A well-formed request for a claim adds one claim in every state, whether or not the
/// hooks are installed, and stops blocking at once.
pub proof fn law_a_claim_request_succeeds(counts: Counts, hooks_installed: bool, rest: Seq<u8>)
    ensures
        ({
            let request = Request { magic: 0x5349_4754, version: 1, command: 4 };
            let message = Some(request.wire() + rest);
            let after = counts.with(granted(message, hooks_installed));
            &&& answered(message, hooks_installed) == ResultCode::Success
            &&& after.claims == counts.claims + 1
            &&& after.leases == counts.leases
            &&& effect_of(counts, after) == Effect::Rediscover <==> counts.leases > 0
                && counts.claims == 0
            &&& effect_of(counts, after) != Effect::Revoke
        }),
{
    lemma_opening(4, rest, Command::AcquireLease);
    lemma_opening(4, rest, Command::QueryStatus);
    lemma_opening(4, rest, Command::AcquirePassThrough);
}

/// A message that begins with a foreign header or with any other command is refused and
/// changes nothing, and so is a message that is too short or was never read.
pub proof fn law_what_is_no_opening_request_is_refused(
    request: Request,
    rest: Seq<u8>,
    short: Seq<u8>,
    counts: Counts,
    hooks_installed: bool,
)
    requires
        request.magic != 0x5349_4754 || request.version != 1 || !(request.command == 1
            || request.command == 2 || request.command == 4),
        short.len() < 8,
    ensures
        ({
            let foreign = Some(request.wire() + rest);
            &&& answered(foreign, hooks_installed) == ResultCode::InvalidRequest
            &&& counts.with(granted(foreign, hooks_installed)) == counts
        }),
        answered(Some(short), hooks_installed) == ResultCode::InvalidRequest,
        counts.with(granted(Some(short), hooks_installed)) == counts,
        answered(None, hooks_installed) == ResultCode::InvalidRequest,
        counts.with(granted(None, hooks_installed)) == counts,
{
    law_request_round_trip(request, rest);
}

/// Only a request for a lease has the hooks installed; a claim or a status request never
/// waits for that.
pub proof fn law_only_a_lease_request_waits_for_the_hooks(request: Request, rest: Seq<u8>)
    ensures
        opens_with(Some(request.wire() + rest), Command::AcquireLease) <==> request.magic
            == 0x5349_4754 && request.version == 1 && request.command == 1,
        !opens_with(None, Command::AcquireLease),
{
    law_request_round_trip(request, rest);
}

/// An owner is answered exactly where its next message is the well-formed release of
/// what it owns and nothing more.
pub proof fn law_only_the_own_release_is_answered(request: Request, rest: Seq<u8>, short: Seq<u8>)
    requires
        short.len() < 8,
    ensures
        ({
            let message = Some(request.wire() + rest);
            let header = request.magic == 0x5349_4754 && request.version == 1 && rest.len() == 0;
            &&& releases(message, Ownership::Lease) <==> header && request.command == 3
            &&& releases(message, Ownership::PassThrough) <==> header && request.command == 5
        }),
        !releases(Some(short), Ownership::Lease),
        !releases(Some(short), Ownership::PassThrough),
        !releases(None, Ownership::Lease),
        !releases(None, Ownership::PassThrough),
{
    law_request_round_trip(request, rest);
}

/// Blocking needs a lease and suffers no claim, and each end of an owner takes back one
/// of its kind, whatever else is held.
pub proof fn law_blocking_lasts_from_first_lease_to_last(counts: Counts)
    ensures
        counts.blocking() <==> counts.leases > 0 && counts.claims == 0,
        counts.with(Some(Ownership::Lease)).without(Ownership::Lease) == counts,
        counts.leases > 0 ==> counts.without(Ownership::Lease).leases + 1 == counts.leases,
        counts.claims > 0 ==> counts.without(Ownership::PassThrough).claims + 1 == counts.claims,
        counts.leases > 1 && counts.claims == 0 ==> effect_of(
            counts,
            counts.without(Ownership::Lease),
        ) == Effect::Nothing,
        counts.leases == 1 && counts.claims == 0 ==> effect_of(
            counts,
            counts.without(Ownership::Lease),
        ) == Effect::Rediscover,
        counts.leases > 0 && counts.claims == 1 ==> effect_of(
            counts,
            counts.without(Ownership::PassThrough),
        ) == Effect::Revoke,
{
}

} // verus!
