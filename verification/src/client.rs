//! The client of a cache server: who registers a plan, in what order, and how the stream of its
//! batches is polled.

use crate::metrics::wrapped_sum;
use crate::metrics::FlightStreamMetrics;
use crate::metrics::StartableTime;
use crate::modes::CacheMode;
use vstd::prelude::*;

verus! {

/// How far the registration of a plan with the server has come.
#[derive(Clone, Copy, Debug, PartialEq, Eq, Structural)]
pub enum PlanRegisterState {
    /// Nobody has taken it on.
    NotRegistered,
    /// Somebody has taken it on.
    InProgress,
    /// The server knows the plan.
    Registered,
}

impl PlanRegisterState {
    /// The number of the state.
    pub open spec fn number(self) -> usize {
        match self {
            PlanRegisterState::NotRegistered => 0,
            PlanRegisterState::InProgress => 1,
            PlanRegisterState::Registered => 2,
        }
    }

    /// The number of the state.
    pub fn to_number(&self) -> (n: usize)
        ensures
            n == self.number(),
    {
        match self {
            PlanRegisterState::NotRegistered => 0,
            PlanRegisterState::InProgress => 1,
            PlanRegisterState::Registered => 2,
        }
    }

    /// The state with a number.
    pub fn from_number(n: usize) -> (state: Option<Self>)
        ensures
            forall|s: PlanRegisterState| state == Some(s) <==> n == #[trigger] s.number(),
            state is None <==> forall|s: PlanRegisterState| n != #[trigger] s.number(),
    {
        match n {
            0 => {
                assert(n == PlanRegisterState::NotRegistered.number());
                Some(PlanRegisterState::NotRegistered)
            },
            1 => {
                assert(n == PlanRegisterState::InProgress.number());
                Some(PlanRegisterState::InProgress)
            },
            2 => {
                assert(n == PlanRegisterState::Registered.number());
                Some(PlanRegisterState::Registered)
            },
            _ => None,
        }
    }

    /// The state after somebody has tried to take on the registration.
    pub open spec fn claimed(self) -> PlanRegisterState {
        if self == PlanRegisterState::NotRegistered {
            PlanRegisterState::InProgress
        } else {
            self
        }
    }

    /// Tries to take on the registration, and says whether that was successful.
    pub fn claim(&mut self) -> (won: bool)
        ensures
            won == (*old(self) == PlanRegisterState::NotRegistered),
            *final(self) == old(self).claimed(),
    {
        match self {
            PlanRegisterState::NotRegistered => {
                *self = PlanRegisterState::InProgress;
                true
            },
            _ => false,
        }
    }
}

/// The state after a number of attempts to take on the registration.
pub open spec fn claimed_times(state: PlanRegisterState, attempts: nat) -> PlanRegisterState
    decreases attempts,
{
    if attempts == 0 {
        state
    } else {
        claimed_times(state, (attempts - 1) as nat).claimed()
    }
}

/// Whoever tries first takes the registration on, and nobody after that.
pub proof fn one_registrar(attempts: nat)
    ensures
        claimed_times(PlanRegisterState::NotRegistered, attempts)
            == PlanRegisterState::NotRegistered <==> attempts == 0,
        attempts > 0 ==> claimed_times(PlanRegisterState::NotRegistered, attempts)
            == PlanRegisterState::InProgress,
        claimed_times(PlanRegisterState::Registered, attempts) == PlanRegisterState::Registered,
    decreases attempts,
{
    if attempts > 0 {
        one_registrar((attempts - 1) as nat);
    }
}

/// The number that names a plan to the server: sixteen bytes.
#[derive(Clone, Copy, Debug, PartialEq, Eq)]
pub struct PlanHandle {
    /// The bytes.
    pub bytes: [u8; 16],
}

impl PlanHandle {
    /// Whether the bytes are those of a random identifier: version four, variant one.
    pub open spec fn is_random(self) -> bool {
        &&& self.bytes@[6] >> 4 == 4
        &&& self.bytes@[8] >> 6 == 2
    }
}

/// `Uuid::new_v4` is a random identifier of version four. Nothing more is known of it.
#[verifier::external_body]
fn new_handle() -> (handle: PlanHandle)
    ensures
        handle.is_random(),
{
    PlanHandle { bytes: uuid::Uuid::new_v4().into_bytes() }
}

/// The address and options of an object store.
pub struct ObjectStoreOptions {
    /// The address.
    pub url: String,
    /// The options by name.
    pub options: Vec<(String, String)>,
}

/// A plan that is executed by the server.
pub struct LiquidCacheClientExec {
    cache_server: String,
    cache_mode: CacheMode,
    object_stores: Vec<ObjectStoreOptions>,
    uuid: PlanHandle,
}

impl LiquidCacheClientExec {
    /// The address of the server.
    pub closed spec fn server(&self) -> Seq<char> {
        self.cache_server@
    }

    /// What the server caches.
    pub closed spec fn mode(&self) -> CacheMode {
        self.cache_mode
    }

    /// The object stores that the plan reads from.
    pub closed spec fn stores(&self) -> Seq<ObjectStoreOptions> {
        self.object_stores@
    }

    /// The number that names the plan to the server.
    pub closed spec fn handle(&self) -> PlanHandle {
        self.uuid
    }

    /// A plan under a new number.
    pub fn new(
        cache_server: String,
        cache_mode: CacheMode,
        object_stores: Vec<ObjectStoreOptions>,
    ) -> (exec: Self)
        ensures
            exec.server() == cache_server@,
            exec.mode() == cache_mode,
            exec.stores() == object_stores@,
            exec.handle().is_random(),
    {
        LiquidCacheClientExec { cache_server, cache_mode, object_stores, uuid: new_handle() }
    }

    /// The number that names the plan to the server.
    pub fn get_uuid(&self) -> (uuid: PlanHandle)
        ensures
            uuid == self.handle(),
    {
        self.uuid
    }

    /// The address of the server.
    pub fn cache_server(&self) -> (server: &String)
        ensures
            server@ == self.server(),
    {
        &self.cache_server
    }

    /// The object stores that the plan reads from.
    pub fn object_stores(&self) -> (stores: &Vec<ObjectStoreOptions>)
        ensures
            stores@ == self.stores(),
    {
        &self.object_stores
    }

    /// Starts on the way to the stream of a partition: whoever finds that nobody has taken on the
    /// registration of the plan does so.
    pub fn execute(&self, state: &mut PlanRegisterState, partition: usize) -> (request:
        FlightRequest)
        ensures
            request.wf(),
            request.is_registrar() == (*old(state) == PlanRegisterState::NotRegistered),
            *final(state) == old(state).claimed(),
            request.steps() == 0,
            request.store_count() == self.stores().len(),
            request.plan() == self.handle(),
            request.wanted() == partition,
    {
        FlightRequest::new(state, self.object_stores.len(), self.uuid, partition)
    }

    /// The text that describes the plan, with the name of the plan in front unless it stands in a
    /// tree. `stores` describes the object stores.
    pub open spec fn description(&self, in_tree: bool, stores: Seq<char>) -> Seq<char> {
        (if in_tree {
            ""@
        } else {
            "LiquidCacheClientExec: "@
        }) + "server="@ + self.server() + ", mode="@ + self.mode().name() + ", object_stores="@
            + stores
    }

    /// The text that describes the plan. See [Self::description].
    pub fn fmt_as(&self, in_tree: bool, stores: &str) -> (text: String)
        ensures
            text@ == self.description(in_tree, stores@),
    {
        let mut text = String::new();
        if in_tree {
            text.append("");
        } else {
            text.append("LiquidCacheClientExec: ");
        }
        text.append("server=");
        text.append(self.cache_server.as_str());
        text.append(", mode=");
        text.append(self.cache_mode.to_string().as_str());
        text.append(", object_stores=");
        text.append(stores);
        assert(text@ =~= self.description(in_tree, stores@));
        text
    }
}

/// What is to be done next to get the stream of a partition.
#[derive(Clone, Copy, Debug, PartialEq, Eq)]
pub enum FlightStep {
    /// Register one of the object stores with the server.
    RegisterObjectStore(usize),
    /// Register the plan with the server, under this handle.
    RegisterPlan(PlanHandle),
    /// Let everybody know that the plan is registered.
    PublishRegistered,
    /// Wait for a tenth of a millisecond, and look at the state of the registration again.
    Wait,
    /// Ask the server for the results of a partition.
    Fetch {
        /// The handle of the plan.
        handle: PlanHandle,
        /// The partition.
        partition: u32,
    },
}

/// The way to the stream of a partition, for one of those who want it.
pub struct FlightRequest {
    registrar: bool,
    done: usize,
    stores: usize,
    handle: PlanHandle,
    partition: usize,
}

impl FlightRequest {
    /// Whether it registers the plan.
    pub closed spec fn is_registrar(&self) -> bool {
        self.registrar
    }

    /// The number of steps done.
    pub closed spec fn steps(&self) -> nat {
        self.done as nat
    }

    /// The number of object stores.
    pub closed spec fn store_count(&self) -> nat {
        self.stores as nat
    }

    /// The partition.
    pub closed spec fn wanted(&self) -> usize {
        self.partition
    }

    /// The handle of the plan.
    pub closed spec fn plan(&self) -> PlanHandle {
        self.handle
    }

    /// Whether no more steps were done than there are.
    pub closed spec fn wf(&self) -> bool {
        &&& self.registrar ==> self.done <= self.stores + 2
        &&& !self.registrar ==> self.done == 0
    }

    /// At the connection to the server: whoever finds that nobody has taken on the registration does
    /// so.
    pub fn new(
        state: &mut PlanRegisterState,
        stores: usize,
        handle: PlanHandle,
        partition: usize,
    ) -> (request: Self)
        ensures
            request.wf(),
            request.is_registrar() == (*old(state) == PlanRegisterState::NotRegistered),
            *final(state) == old(state).claimed(),
            request.steps() == 0,
            request.store_count() == stores,
            request.plan() == handle,
            request.wanted() == partition,
    {
        FlightRequest { registrar: state.claim(), done: 0, stores, handle, partition }
    }

    /// The step that comes next, where the registration is seen in the given state.
    pub open spec fn spec_next_step(&self, state: PlanRegisterState) -> FlightStep {
        if self.is_registrar() {
            if self.steps() < self.store_count() {
                FlightStep::RegisterObjectStore(self.steps() as usize)
            } else if self.steps() == self.store_count() {
                FlightStep::RegisterPlan(self.plan())
            } else if self.steps() == self.store_count() + 1 {
                FlightStep::PublishRegistered
            } else {
                FlightStep::Fetch { handle: self.plan(), partition: self.wanted() as u32 }
            }
        } else if state == PlanRegisterState::Registered {
            FlightStep::Fetch { handle: self.plan(), partition: self.wanted() as u32 }
        } else {
            FlightStep::Wait
        }
    }

    /// The step that comes next, where the registration is seen in the given state.
    pub fn next_step(&self, state: PlanRegisterState) -> (step: FlightStep)
        requires
            self.wf(),
        ensures
            step == self.spec_next_step(state),
            // Whoever registers goes through the object stores, the plan and the announcement.
            self.is_registrar() && self.steps() < self.store_count() ==> step
                == FlightStep::RegisterObjectStore(self.steps() as usize),
            self.is_registrar() && self.steps() == self.store_count() ==> step
                == FlightStep::RegisterPlan(self.plan()),
            self.is_registrar() && self.steps() == self.store_count() + 1 ==> step
                == FlightStep::PublishRegistered,
            // Everybody else waits until the plan is registered, and no longer.
            !self.is_registrar() && state != PlanRegisterState::Registered ==> step
                == FlightStep::Wait,
            // Then the results are asked for.
            step is Fetch <==> self.is_registrar() && self.steps() == self.store_count() + 2
                || !self.is_registrar() && state == PlanRegisterState::Registered,
            step is Fetch ==> step->handle == self.plan() && step->partition as int
                == self.wanted() as int % 0x1_0000_0000,
    {
        proof {
            let wanted = self.partition;
            lemma_low_bits(wanted);
        }
        #[verifier::truncate]
        let partition: u32 = self.partition as u32;
        if self.registrar {
            if self.done < self.stores {
                FlightStep::RegisterObjectStore(self.done)
            } else if self.done == self.stores {
                FlightStep::RegisterPlan(self.handle)
            } else if self.done - self.stores == 1 {
                FlightStep::PublishRegistered
            } else {
                FlightStep::Fetch { handle: self.handle, partition }
            }
        } else {
            match state {
                PlanRegisterState::Registered => FlightStep::Fetch {
                    handle: self.handle,
                    partition,
                },
                _ => FlightStep::Wait,
            }
        }
    }

    /// A step of the registration was done; after the last one, the plan is registered. The number
    /// of object stores leaves room for the two steps after them.
    pub fn step_done(&mut self, state: &mut PlanRegisterState)
        requires
            old(self).wf(),
            old(self).is_registrar(),
            old(self).steps() < old(self).store_count() + 2,
            old(self).store_count() + 2 <= usize::MAX,
        ensures
            final(self).wf(),
            final(self).is_registrar(),
            final(self).steps() == old(self).steps() + 1,
            final(self).store_count() == old(self).store_count(),
            final(self).plan() == old(self).plan(),
            final(self).wanted() == old(self).wanted(),
            *final(state) == if old(self).steps() == old(self).store_count() + 1 {
                PlanRegisterState::Registered
            } else {
                *old(state)
            },
    {
        if self.done > self.stores {
            *state = PlanRegisterState::Registered;
        }
        self.done += 1;
    }
}

/// Nobody asks for results before the plan is registered: whoever registers it has registered all
/// object stores and the plan and said so, and everybody else has seen it registered.
pub proof fn results_come_after_registration(request: &FlightRequest, state: PlanRegisterState)
    requires
        request.wf(),
        request.spec_next_step(state) is Fetch,
    ensures
        request.is_registrar() ==> request.steps() == request.store_count() + 2,
        !request.is_registrar() ==> state == PlanRegisterState::Registered,
        request.spec_next_step(state) == (FlightStep::Fetch {
            handle: request.plan(),
            partition: request.wanted() as u32,
        }),
{
}

/// Several callers that share one registration, between two steps.
pub struct SharedRegistration {
    /// The state of the registration.
    pub state: PlanRegisterState,
    /// Those who have ever started.
    pub started: Set<int>,
    /// Those who are on their way.
    pub requests: Map<int, FlightRequest>,
    /// What the server was asked and did, in order, and by whom.
    pub served: Seq<(int, FlightStep)>,
}

/// The plan that callers share, and the partition that each of them wants.
pub struct SharedPlan {
    /// The number of object stores.
    pub stores: nat,
    /// The handle of the plan.
    pub handle: PlanHandle,
    /// The partition of each caller.
    pub partition: spec_fn(int) -> usize,
}

impl SharedPlan {
    /// What the server is asked for the registration: each object store in order, then the plan.
    pub open spec fn registration(self, i: int) -> FlightStep {
        if i < self.stores {
            FlightStep::RegisterObjectStore(i as usize)
        } else {
            FlightStep::RegisterPlan(self.handle)
        }
    }

    /// What a caller asks for after that.
    pub open spec fn fetch(self, caller: int) -> FlightStep {
        FlightStep::Fetch { handle: self.handle, partition: (self.partition)(caller) as u32 }
    }

    /// Whether a request is for this plan and for the partition of a caller.
    pub open spec fn is_request_of(self, request: FlightRequest, caller: int) -> bool {
        &&& request.wf()
        &&& request.store_count() == self.stores
        &&& request.plan() == self.handle
        &&& request.wanted() == (self.partition)(caller)
    }
}

impl SharedRegistration {
    /// Nobody has started.
    pub open spec fn is_initial(self) -> bool {
        &&& self.state == PlanRegisterState::NotRegistered
        &&& self.started == Set::<int>::empty()
        &&& self.requests == Map::<int, FlightRequest>::empty()
        &&& self.served == Seq::<(int, FlightStep)>::empty()
    }

    /// A caller starts, as [FlightRequest::new] does.
    pub open spec fn starts(self, after: SharedRegistration, plan: SharedPlan, caller: int) -> bool {
        let request = after.requests[caller];
        &&& !self.started.contains(caller)
        &&& plan.is_request_of(request, caller)
        &&& request.is_registrar() == (self.state == PlanRegisterState::NotRegistered)
        &&& request.steps() == 0
        &&& after.state == self.state.claimed()
        &&& after.started == self.started.insert(caller)
        &&& after.requests == self.requests.insert(caller, request)
        &&& after.served == self.served
    }

    /// A caller does its next step: it waits, asks the server, or publishes the registration, as
    /// [FlightRequest::step_done] does; with the results it is done.
    pub open spec fn proceeds(
        self,
        after: SharedRegistration,
        plan: SharedPlan,
        caller: int,
    ) -> bool {
        let before = self.requests[caller];
        let step = before.spec_next_step(self.state);
        let request = after.requests[caller];
        &&& self.requests.contains_key(caller)
        &&& after.started == self.started
        &&& match step {
            FlightStep::Wait => after == self,
            FlightStep::Fetch { .. } => {
                &&& after.state == self.state
                &&& after.requests == self.requests.remove(caller)
                &&& after.served == self.served.push((caller, step))
            },
            _ => {
                &&& plan.is_request_of(request, caller)
                &&& request.is_registrar() == before.is_registrar()
                &&& request.steps() == before.steps() + 1
                &&& after.requests == self.requests.insert(caller, request)
                &&& after.state == if before.steps() == before.store_count() + 1 {
                    PlanRegisterState::Registered
                } else {
                    self.state
                }
                &&& after.served == if step is PublishRegistered {
                    self.served
                } else {
                    self.served.push((caller, step))
                }
            },
        }
    }

    /// The server fails a caller, which gives up.
    pub open spec fn fails(self, after: SharedRegistration, caller: int) -> bool {
        &&& self.requests.contains_key(caller)
        &&& after.state == self.state
        &&& after.started == self.started
        &&& after.requests == self.requests.remove(caller)
        &&& after.served == self.served
    }

    /// A caller starts, proceeds or fails.
    pub open spec fn moves(self, after: SharedRegistration, plan: SharedPlan, caller: int) -> bool {
        ||| self.starts(after, plan, caller)
        ||| self.proceeds(after, plan, caller)
        ||| self.fails(after, caller)
    }

    /// Some caller starts, proceeds or fails.
    pub open spec fn steps_to(self, after: SharedRegistration, plan: SharedPlan) -> bool {
        exists|caller: int| #[trigger] self.moves(after, plan, caller)
    }

    /// What the server was asked and did is a registration, in order, as far as it has come, and
    /// after all of it the callers' own partitions.
    pub open spec fn serves(self, plan: SharedPlan) -> bool {
        &&& forall|i: int|
            0 <= i < self.served.len() ==> (#[trigger] self.served[i]).1 == if i <= plan.stores {
                plan.registration(i)
            } else {
                plan.fetch(self.served[i].0)
            }
        &&& self.served.len() > plan.stores + 1 ==> self.state == PlanRegisterState::Registered
        &&& self.state == PlanRegisterState::Registered ==> self.served.len() > plan.stores
        &&& forall|i: int, j: int|
            plan.stores < i < j < self.served.len() ==> (#[trigger] self.served[i]).0 != (
            #[trigger] self.served[j]).0
    }

    /// What holds between any two steps.
    spec fn inv(self, plan: SharedPlan) -> bool {
        &&& self.serves(plan)
        &&& forall|c: int| #[trigger]
            self.requests.contains_key(c) ==> self.started.contains(c) && plan.is_request_of(
                self.requests[c],
                c,
            )
        &&& forall|i: int|
            0 <= i < self.served.len() ==> self.started.contains((#[trigger] self.served[i]).0)
        &&& forall|c: int, i: int|
            #![trigger self.requests.contains_key(c), self.served[i]]
            self.requests.contains_key(c) && plan.stores < i < self.served.len()
                ==> self.served[i].0 != c
        &&& forall|c: int, d: int|
            #![trigger self.requests[c], self.requests[d]]
            self.requests.contains_key(c) && self.requests.contains_key(d)
                && self.requests[c].is_registrar() && self.requests[d].is_registrar() ==> c == d
        &&& match self.state {
            PlanRegisterState::NotRegistered => {
                &&& self.started == Set::<int>::empty()
                &&& self.served.len() == 0
            },
            PlanRegisterState::InProgress => forall|c: int|
                #![trigger self.requests[c]]
                self.requests.contains_key(c) && self.requests[c].is_registrar()
                    ==> self.requests[c].steps() == self.served.len(),
            PlanRegisterState::Registered => forall|c: int|
                #![trigger self.requests[c]]
                self.requests.contains_key(c) && self.requests[c].is_registrar()
                    ==> self.requests[c].steps() == plan.stores + 2,
        }
    }
}

proof fn lemma_shared_start(
    before: SharedRegistration,
    after: SharedRegistration,
    plan: SharedPlan,
    caller: int,
)
    requires
        before.inv(plan),
        before.starts(after, plan, caller),
    ensures
        after.inv(plan),
{
    assert forall|c: int| #[trigger] after.requests.contains_key(c) implies after.started.contains(c)
        && plan.is_request_of(after.requests[c], c) by {
        if c != caller {
            assert(before.requests.contains_key(c));
        }
    }
    assert forall|c: int, i: int|
        #![trigger after.requests.contains_key(c), after.served[i]]
        after.requests.contains_key(c) && plan.stores < i < after.served.len() implies after.served[i].0
        != c by {
        assert(before.started.contains(before.served[i].0));
        if c != caller {
            assert(before.requests.contains_key(c));
        }
    }
    assert forall|c: int, d: int|
        #![trigger after.requests[c], after.requests[d]]
        after.requests.contains_key(c) && after.requests.contains_key(d)
            && after.requests[c].is_registrar() && after.requests[d].is_registrar() implies c == d by {
        if before.state == PlanRegisterState::NotRegistered {
            if c != caller {
                assert(before.requests.contains_key(c));
                assert(before.started.contains(c));
            }
            if d != caller {
                assert(before.requests.contains_key(d));
                assert(before.started.contains(d));
            }
        } else {
            assert(before.requests.contains_key(c) && before.requests.contains_key(d));
            assert(before.requests[c] == after.requests[c]);
            assert(before.requests[d] == after.requests[d]);
        }
    }
    assert forall|c: int|
        #![trigger after.requests[c]]
        after.requests.contains_key(c) && after.requests[c].is_registrar() && before.state
            != PlanRegisterState::NotRegistered implies c != caller && before.requests[c]
        == after.requests[c] && before.requests.contains_key(c) by {}
    if before.state == PlanRegisterState::NotRegistered {
        assert forall|c: int|
            #![trigger after.requests[c]]
            after.requests.contains_key(c) && after.requests[c].is_registrar() implies c == caller by {
            if c != caller {
                assert(before.requests.contains_key(c));
                assert(before.started.contains(c));
            }
        }
    }
}

proof fn lemma_shared_fail(
    before: SharedRegistration,
    after: SharedRegistration,
    plan: SharedPlan,
    caller: int,
)
    requires
        before.inv(plan),
        before.fails(after, caller),
    ensures
        after.inv(plan),
{
    assert forall|c: int| #[trigger] after.requests.contains_key(c) implies before.requests.contains_key(
        c,
    ) && before.requests[c] == after.requests[c] by {}
    assert(before.started.contains(caller));
}

proof fn lemma_shared_proceed(
    before: SharedRegistration,
    after: SharedRegistration,
    plan: SharedPlan,
    caller: int,
)
    requires
        before.inv(plan),
        before.proceeds(after, plan, caller),
    ensures
        after.inv(plan),
{
    let request = before.requests[caller];
    let step = request.spec_next_step(before.state);
    assert(before.started.contains(caller));
    assert(plan.is_request_of(request, caller));
    assert(before.state != PlanRegisterState::NotRegistered);
    match step {
        FlightStep::Wait => {},
        FlightStep::Fetch { .. } => {
            assert forall|c: int| #[trigger] after.requests.contains_key(c) implies c != caller
                && before.requests.contains_key(c) && before.requests[c] == after.requests[c] by {}
            assert(before.state == PlanRegisterState::Registered);
            assert(step == plan.fetch(caller));
            assert forall|i: int| 0 <= i < after.served.len() implies after.started.contains(
                (#[trigger] after.served[i]).0,
            ) && after.served[i].1 == if i <= plan.stores {
                plan.registration(i)
            } else {
                plan.fetch(after.served[i].0)
            } by {
                if i < before.served.len() {
                    assert(after.served[i] == before.served[i]);
                }
            }
            assert forall|i: int, j: int|
                plan.stores < i < j < after.served.len() implies (#[trigger] after.served[i]).0 != (
            #[trigger] after.served[j]).0 by {
                assert(after.served[i] == before.served[i]);
                if j < before.served.len() {
                    assert(after.served[j] == before.served[j]);
                } else {
                    assert(before.requests.contains_key(caller) && before.served[i].0 != caller);
                }
            }
            assert forall|c: int, i: int|
                #![trigger after.requests.contains_key(c), after.served[i]]
                after.requests.contains_key(c) && plan.stores < i
                    < after.served.len() implies after.served[i].0 != c by {
                if i < before.served.len() {
                    assert(after.served[i] == before.served[i]);
                    assert(before.requests.contains_key(c));
                }
            }
        },
        _ => {
            assert(request.is_registrar());
            assert(before.state == PlanRegisterState::InProgress);
            assert(request.steps() == before.served.len());
            assert(before.served.len() <= plan.stores + 1);
            assert forall|c: int| #[trigger] after.requests.contains_key(c) implies before.requests.contains_key(
                c,
            ) && (c != caller ==> before.requests[c] == after.requests[c] && !(
            after.requests[c].is_registrar())) by {
                if c != caller && before.requests[c].is_registrar() {
                    assert(before.requests[caller].is_registrar());
                }
            }
            if step is PublishRegistered {
                assert(after.served == before.served);
            } else {
                assert(step == plan.registration(before.served.len() as int));
                assert forall|i: int| 0 <= i < after.served.len() implies after.started.contains(
                    (#[trigger] after.served[i]).0,
                ) && after.served[i].1 == plan.registration(i) by {
                    if i < before.served.len() {
                        assert(after.served[i] == before.served[i]);
                    }
                }
            }
        },
    }
}

/// However many callers share one registration, and however their steps come to lie between each
/// other: the server is asked once for each object store, in order, then once for the plan, under
/// its handle, and only after that for results; each caller gets its own partition, once. Once
/// results were asked for, the plan is registered.
pub proof fn shared_registration_is_served_once(worlds: Seq<SharedRegistration>, plan: SharedPlan)
    requires
        worlds.len() > 0,
        worlds[0].is_initial(),
        forall|t: int|
            #![trigger worlds[t]]
            0 <= t < worlds.len() - 1 ==> worlds[t].steps_to(worlds[t + 1], plan),
    ensures
        worlds.last().serves(plan),
{
    lemma_shared_run(worlds, plan, worlds.len() - 1);
}

proof fn lemma_shared_run(worlds: Seq<SharedRegistration>, plan: SharedPlan, t: int)
    requires
        0 <= t < worlds.len(),
        worlds[0].is_initial(),
        forall|t: int|
            #![trigger worlds[t]]
            0 <= t < worlds.len() - 1 ==> worlds[t].steps_to(worlds[t + 1], plan),
    ensures
        worlds[t].inv(plan),
    decreases t,
{
    if t > 0 {
        lemma_shared_run(worlds, plan, t - 1);
        lemma_shared_step(worlds[t - 1], worlds[t], plan);
    }
}

proof fn lemma_shared_step(before: SharedRegistration, after: SharedRegistration, plan: SharedPlan)
    requires
        before.inv(plan),
        before.steps_to(after, plan),
    ensures
        after.inv(plan),
{
    let caller = choose|caller: int| #[trigger] before.moves(after, plan, caller);
    if before.starts(after, plan, caller) {
        lemma_shared_start(before, after, plan, caller);
    } else if before.proceeds(after, plan, caller) {
        lemma_shared_proceed(before, after, plan, caller);
    } else {
        lemma_shared_fail(before, after, plan, caller);
    }
}

/// Where whoever had taken the registration on has given up, it stays in progress: nobody takes it
/// on again, and the server is asked for nothing more.
pub proof fn nobody_takes_over(
    before: SharedRegistration,
    after: SharedRegistration,
    plan: SharedPlan,
)
    requires
        before.state == PlanRegisterState::InProgress,
        forall|c: int| #[trigger]
            before.requests.contains_key(c) ==> !before.requests[c].is_registrar(),
        before.steps_to(after, plan),
    ensures
        after.state == PlanRegisterState::InProgress,
        forall|c: int| #[trigger]
            after.requests.contains_key(c) ==> !after.requests[c].is_registrar(),
        after.served == before.served,
{
    let caller = choose|caller: int| #[trigger] before.moves(after, plan, caller);
    assert forall|c: int| #[trigger]
        after.requests.contains_key(c) implies !after.requests[c].is_registrar() by {
        if c != caller {
            assert(before.requests.contains_key(c));
        }
    }
}

/// Where a stream of batches is.
#[derive(Clone, Copy, Debug, PartialEq, Eq, Structural)]
pub enum FlightStreamState {
    /// It has not been polled.
    Init,
    /// The connection to the server is being made.
    GetStream,
    /// The remote stream is polled.
    Processing,
}

/// What a poll of the stream has to poll.
#[derive(Clone, Copy, Debug, PartialEq, Eq, Structural)]
pub enum PollAction {
    /// The connection to the server.
    PollConnection,
    /// The remote stream.
    PollStream,
}

/// A stream of batches from the server.
pub struct FlightStream {
    state: FlightStreamState,
    has_schema_mapper: bool,
    metrics: FlightStreamMetrics,
}

impl FlightStream {
    /// Where the stream is.
    pub closed spec fn spec_state(&self) -> FlightStreamState {
        self.state
    }

    /// Whether the way to map batches to the schema of the plan is known.
    pub closed spec fn knows_mapping(&self) -> bool {
        self.has_schema_mapper
    }

    /// What is recorded.
    pub closed spec fn record(&self) -> FlightStreamMetrics {
        self.metrics
    }

    /// Whether a poll is under way.
    pub open spec fn is_polling(&self) -> bool {
        self.record().time_processing.start is Some
    }

    /// Whether the records agree with each other: before the first poll no timer runs; during the
    /// connection only that timer of the three does; after it, one of the two others.
    pub closed spec fn wf(&self) -> bool {
        &&& self.metrics.wf()
        &&& match self.state {
            FlightStreamState::Init => {
                &&& self.metrics.time_reading_total.start is None
                &&& self.metrics.time_processing.start is None
                &&& self.metrics.last_init_stream_time is None
                &&& self.metrics.last_get_stream is None
                &&& self.metrics.last_processing_stream_time is None
            },
            FlightStreamState::GetStream => {
                &&& self.metrics.last_init_stream_time is Some
                &&& self.metrics.last_get_stream is None
                &&& self.metrics.last_processing_stream_time is None
            },
            FlightStreamState::Processing => {
                &&& self.metrics.last_init_stream_time is None
                &&& self.metrics.last_get_stream is None
                    <==> self.metrics.last_processing_stream_time is Some
            },
        }
    }

    /// At every moment at most one of the three timers of the stream runs, and which one depends on
    /// where the stream is.
    pub proof fn one_timer_runs(&self)
        requires
            self.wf(),
        ensures
            self.spec_state() == FlightStreamState::Init ==> {
                &&& self.record().init_stream_time.start is None
                &&& self.record().get_stream_time.start is None
                &&& self.record().processing_stream_time.start is None
            },
            self.spec_state() == FlightStreamState::GetStream ==> {
                &&& self.record().init_stream_time.start is Some
                &&& self.record().get_stream_time.start is None
                &&& self.record().processing_stream_time.start is None
            },
            self.spec_state() == FlightStreamState::Processing ==> {
                &&& self.record().init_stream_time.start is None
                &&& self.record().get_stream_time.start is None
                    <==> self.record().processing_stream_time.start is Some
            },
    {
    }

    /// A stream that has not been polled.
    pub fn new() -> (stream: Self)
        ensures
            stream.wf(),
            !stream.is_polling(),
            stream.spec_state() == FlightStreamState::Init,
            !stream.knows_mapping(),
            stream.record() == FlightStreamMetrics::initial(),
    {
        FlightStream {
            state: FlightStreamState::Init,
            has_schema_mapper: false,
            metrics: FlightStreamMetrics::new(),
        }
    }

    /// What is recorded.
    pub fn metrics(&self) -> (metrics: &FlightStreamMetrics)
        ensures
            *metrics == self.record(),
    {
        &self.metrics
    }

    /// The record as a poll starts: the first one starts the connection.
    pub open spec fn poll_started(&self, now: u64) -> FlightStreamMetrics {
        let polled = FlightStreamMetrics {
            time_processing: StartableTime {
                start: Some(now),
                ..self.record().time_processing
            },
            ..self.record()
        };
        if self.spec_state() == FlightStreamState::Init {
            (FlightStreamMetrics {
                time_reading_total: StartableTime {
                    start: Some(now),
                    ..polled.time_reading_total
                },
                ..polled
            }).init_started(now).get_ended(now).processing_ended(now)
        } else {
            polled
        }
    }

    /// Starts a poll, and says what it has to poll.
    pub fn begin_poll(&mut self, now: u64) -> (action: PollAction)
        requires
            old(self).wf(),
            !old(self).is_polling(),
        ensures
            final(self).wf(),
            final(self).is_polling(),
            final(self).record() == old(self).poll_started(now),
            final(self).spec_state() == if old(self).spec_state() == FlightStreamState::Init {
                FlightStreamState::GetStream
            } else {
                old(self).spec_state()
            },
            final(self).knows_mapping() == old(self).knows_mapping(),
            action == if old(self).spec_state() == FlightStreamState::Processing {
                PollAction::PollStream
            } else {
                PollAction::PollConnection
            },
    {
        self.metrics.time_processing.start(now);
        match self.state {
            FlightStreamState::Init => {
                self.metrics.time_reading_total.start(now);
                self.state = FlightStreamState::GetStream;
                self.metrics.start_init_stream_time(now);
                self.metrics.end_get_stream(now);
                self.metrics.end_processing_stream_time(now);
                PollAction::PollConnection
            },
            FlightStreamState::GetStream => PollAction::PollConnection,
            FlightStreamState::Processing => PollAction::PollStream,
        }
    }

    /// The connection is there: the remote stream has to be polled next.
    pub fn connected(&mut self, now: u64) -> (action: PollAction)
        requires
            old(self).wf(),
            old(self).is_polling(),
            old(self).spec_state() == FlightStreamState::GetStream,
        ensures
            final(self).wf(),
            final(self).is_polling(),
            final(self).record() == old(self).record().init_ended(now).get_started(
                now,
            ).processing_ended(now),
            final(self).spec_state() == FlightStreamState::Processing,
            final(self).knows_mapping() == old(self).knows_mapping(),
            action == PollAction::PollStream,
    {
        self.state = FlightStreamState::Processing;
        self.metrics.end_init_stream_time(now);
        self.metrics.start_get_stream(now);
        self.metrics.end_processing_stream_time(now);
        PollAction::PollStream
    }

    /// The remote stream was polled.
    pub fn stream_polled(&mut self, now: u64)
        requires
            old(self).wf(),
            old(self).is_polling(),
            old(self).spec_state() == FlightStreamState::Processing,
        ensures
            final(self).wf(),
            final(self).is_polling(),
            final(self).record() == (FlightStreamMetrics {
                poll_count: wrapped_sum(old(self).record().poll_count, 1),
                ..old(self).record()
            }).init_ended(now).get_ended(now).processing_started(now),
            final(self).spec_state() == FlightStreamState::Processing,
            final(self).knows_mapping() == old(self).knows_mapping(),
    {
        self.metrics.poll_count = self.metrics.poll_count.wrapping_add(1);
        self.metrics.end_init_stream_time(now);
        self.metrics.end_get_stream(now);
        self.metrics.start_processing_stream_time(now);
    }

    /// Whether the way to map batches has to be found out from the batch at hand.
    pub fn needs_mapping(&self) -> (needs: bool)
        ensures
            needs == !self.knows_mapping(),
    {
        !self.has_schema_mapper
    }

    /// A batch is there: nothing is waited for any longer. It is mapped to the schema of the plan
    /// after that.
    pub fn batch_arrived(&mut self, now: u64)
        requires
            old(self).wf(),
            old(self).is_polling(),
            old(self).spec_state() == FlightStreamState::Processing,
        ensures
            final(self).wf(),
            final(self).is_polling(),
            final(self).spec_state() == FlightStreamState::Processing,
            final(self).knows_mapping() == old(self).knows_mapping(),
            final(self).record() == old(self).record().pending_stopped(now),
            final(self).record().last_pending_start is None,
    {
        self.metrics.stop_pending(now);
    }

    /// Ends a poll that hands out a batch, after it arrived and was mapped to the schema of the
    /// plan.
    pub fn batch_ready(&mut self, rows: u64, bytes: u64, now: u64)
        requires
            old(self).wf(),
            old(self).is_polling(),
            old(self).spec_state() == FlightStreamState::Processing,
            old(self).record().last_pending_start is None,
        ensures
            final(self).wf(),
            !final(self).is_polling(),
            final(self).knows_mapping(),
            final(self).spec_state() == FlightStreamState::Processing,
            final(self).record() == ({
                let ready = old(self).record();
                FlightStreamMetrics {
                    output_rows: wrapped_sum(ready.output_rows, rows as int),
                    bytes_decoded: wrapped_sum(ready.bytes_decoded, bytes as int),
                    time_processing: ready.time_processing.stopped(now),
                    ..ready
                }
            }),
    {
        self.has_schema_mapper = true;
        self.metrics.output_rows = self.metrics.output_rows.wrapping_add(rows);
        self.metrics.bytes_decoded = self.metrics.bytes_decoded.wrapping_add(bytes);
        self.metrics.time_processing.stop(now);
    }

    /// Ends a poll that found the end of the stream.
    pub fn finished(&mut self, now: u64)
        requires
            old(self).wf(),
            old(self).is_polling(),
            old(self).spec_state() == FlightStreamState::Processing,
        ensures
            final(self).wf(),
            !final(self).is_polling(),
            final(self).knows_mapping() == old(self).knows_mapping(),
            final(self).spec_state() == FlightStreamState::Processing,
            final(self).record() == (FlightStreamMetrics {
                time_processing: old(self).record().time_processing.stopped(now),
                time_reading_total: old(self).record().time_reading_total.stopped(now),
                ..old(self).record()
            }),
    {
        self.metrics.time_processing.stop(now);
        self.metrics.time_reading_total.stop(now);
    }

    /// Ends a poll that found nothing ready.
    pub fn pending(&mut self, now: u64)
        requires
            old(self).wf(),
            old(self).is_polling(),
        ensures
            final(self).wf(),
            !final(self).is_polling(),
            final(self).knows_mapping() == old(self).knows_mapping(),
            final(self).spec_state() == old(self).spec_state(),
            final(self).record() == ({
                let waiting = old(self).record().pending_started(now);
                FlightStreamMetrics {
                    time_processing: waiting.time_processing.stopped(now),
                    ..waiting
                }
            }),
    {
        self.metrics.start_pending(now);
        self.metrics.time_processing.stop(now);
    }
}

proof fn lemma_low_bits(n: usize)
    ensures
        (n as u32) as int == n as int % 0x1_0000_0000,
{
    let wide = n as u64;
    assert(wide as u32 == wide % 0x1_0000_0000) by (bit_vector);
    assert(n as u32 == wide as u32);
}

/// The three states are numbered from zero on, in the order in which they come.
pub proof fn states_are_numbered(a: PlanRegisterState, b: PlanRegisterState)
    ensures
        PlanRegisterState::NotRegistered.number() == 0,
        PlanRegisterState::InProgress.number() == 1,
        PlanRegisterState::Registered.number() == 2,
        a.number() == b.number() ==> a == b,
        a.number() <= a.claimed().number(),
{
}

/// A registration that nobody has taken on is in progress once somebody does; one that is taken on,
/// or done, stays as it is.
pub proof fn claiming_moves_on_once(state: PlanRegisterState)
    ensures
        PlanRegisterState::NotRegistered.claimed() == PlanRegisterState::InProgress,
        PlanRegisterState::InProgress.claimed() == PlanRegisterState::InProgress,
        PlanRegisterState::Registered.claimed() == PlanRegisterState::Registered,
        state.claimed().claimed() == state.claimed(),
{
}

/// Whoever registers never waits, and asks for the results after as many steps as there are object
/// stores and two more; in between it registers each object store by its place, then the plan under
/// its handle, then says so.
pub proof fn registrar_goes_through_all_steps(request: &FlightRequest, state: PlanRegisterState)
    requires
        request.wf(),
        request.is_registrar(),
    ensures
        !(request.spec_next_step(state) is Wait),
        request.steps() <= request.store_count() + 2,
        request.steps() < request.store_count() ==> request.spec_next_step(state)
            == FlightStep::RegisterObjectStore(request.steps() as usize),
        request.steps() == request.store_count() ==> request.spec_next_step(state)
            == FlightStep::RegisterPlan(request.plan()),
        request.steps() == request.store_count() + 1 ==> request.spec_next_step(state)
            == FlightStep::PublishRegistered,
        request.steps() == request.store_count() + 2 ==> request.spec_next_step(state) is Fetch,
{
}

/// Everybody else waits exactly as long as the plan is not registered.
pub proof fn others_wait_for_the_registration(request: &FlightRequest, state: PlanRegisterState)
    requires
        request.wf(),
        !request.is_registrar(),
    ensures
        state == PlanRegisterState::Registered ==> request.spec_next_step(state) is Fetch,
        state != PlanRegisterState::Registered ==> request.spec_next_step(state)
            == FlightStep::Wait,
{
}

/// Results are asked for by the handle of the plan and by the partition, of which the server is told
/// the lowest 32 bits.
pub proof fn results_are_asked_for_by_partition(request: &FlightRequest, state: PlanRegisterState)
    requires
        request.spec_next_step(state) is Fetch,
    ensures
        request.spec_next_step(state)->handle == request.plan(),
        request.spec_next_step(state)->partition as int == request.wanted() as int
            % 0x1_0000_0000,
        request.wanted() <= u32::MAX ==> request.spec_next_step(state)->partition
            == request.wanted(),
{
    lemma_low_bits(request.wanted());
}

/// The description names the server, the mode and the object stores, and, unless it stands in a tree,
/// starts with the name of the plan.
pub proof fn description_names_everything(exec: &LiquidCacheClientExec, stores: Seq<char>)
    ensures
        exec.description(true, stores) == "server="@ + exec.server() + ", mode="@
            + exec.mode().name() + ", object_stores="@ + stores,
        exec.description(false, stores) == "LiquidCacheClientExec: "@ + exec.description(
            true,
            stores,
        ),
{
    reveal_strlit("");
    assert(exec.description(true, stores) =~= "server="@ + exec.server() + ", mode="@
        + exec.mode().name() + ", object_stores="@ + stores);
    assert(exec.description(false, stores) =~= "LiquidCacheClientExec: "@ + exec.description(
        true,
        stores,
    ));
}

/// A poll is under way exactly while the time spent in polls is counted. The first poll starts to
/// count the time of the whole stream and the time until the connection; a later one starts nothing
/// but the time of the poll.
pub proof fn polls_start_their_timers(stream: &FlightStream, now: u64)
    requires
        stream.wf(),
    ensures
        stream.is_polling() <==> stream.record().time_processing.start is Some,
        stream.spec_state() != FlightStreamState::Init ==> stream.poll_started(now)
            == (FlightStreamMetrics {
            time_processing: StartableTime {
                metrics: stream.record().time_processing.metrics,
                start: Some(now),
            },
            ..stream.record()
        }),
        stream.spec_state() == FlightStreamState::Init ==> stream.poll_started(now)
            == (FlightStreamMetrics {
            time_processing: StartableTime {
                metrics: stream.record().time_processing.metrics,
                start: Some(now),
            },
            time_reading_total: StartableTime {
                metrics: stream.record().time_reading_total.metrics,
                start: Some(now),
            },
            init_stream_time: StartableTime {
                metrics: stream.record().init_stream_time.metrics,
                start: Some(now),
            },
            last_init_stream_time: Some(now),
            ..stream.record()
        }),
{
}

/// The handle of a plan is told by its bytes to be a random identifier: the upper half of the
/// seventh is a four, and the upper two bits of the ninth are a one and a zero.
pub proof fn handles_tell_their_version(handle: PlanHandle)
    ensures
        handle.is_random() <==> 0x40 <= handle.bytes@[6] <= 0x4F && 0x80 <= handle.bytes@[8] <= 0xBF,
{
    let version = handle.bytes@[6];
    let variant = handle.bytes@[8];
    assert((version >> 4 == 4) <==> (0x40 <= version && version <= 0x4F)) by (bit_vector);
    assert((variant >> 6 == 2) <==> (0x80 <= variant && variant <= 0xBF)) by (bit_vector);
}

} // verus!
