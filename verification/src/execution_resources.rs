//! Process-wide resource coordination for concurrent schedulers.

use std::collections::VecDeque;
use vstd::prelude::*;

verus! {

/// Roles that a parallel run needs beside its workers: finality and ordered commit.
pub const PARALLEL_COORDINATOR_COUNT: usize = 2;

/// Fewest workers that make a run parallel.
pub const MIN_PARALLEL_WORKER_COUNT: usize = 2;

/// Fewest roles that make a run parallel.
pub const MIN_PARALLEL_ROLE_COUNT: usize = PARALLEL_COORDINATOR_COUNT + MIN_PARALLEL_WORKER_COUNT;

/// The smaller of two numbers.
pub open spec fn smaller(a: int, b: int) -> int {
    if a <= b {
        a
    } else {
        b
    }
}

/// The request can be served by a parallel run.
pub open spec fn fits_parallel(
    capacity: usize,
    available: usize,
    desired_parallel_workers: Option<usize>,
) -> bool {
    match desired_parallel_workers {
        Some(desired) => {
            &&& desired >= MIN_PARALLEL_WORKER_COUNT
            &&& capacity >= MIN_PARALLEL_ROLE_COUNT
            &&& available >= MIN_PARALLEL_ROLE_COUNT
        },
        None => false,
    }
}

/// The slots and workers granted to a request: as many roles as were asked for and are to be had,
/// or one sequential role.
pub open spec fn granted(
    capacity: usize,
    available: usize,
    desired_parallel_workers: Option<usize>,
) -> (usize, Option<usize>) {
    if fits_parallel(capacity, available, desired_parallel_workers) {
        let roles = smaller(
            smaller(
                desired_parallel_workers->0 + PARALLEL_COORDINATOR_COUNT,
                capacity as int,
            ),
            available as int,
        );
        (roles as usize, Some((roles - PARALLEL_COORDINATOR_COUNT) as usize))
    } else {
        (1, None)
    }
}

/// Computes the slots and workers granted to a request.
pub fn allocation_for(
    capacity: usize,
    available: usize,
    desired_parallel_workers: Option<usize>,
) -> (allocation: (usize, Option<usize>))
    ensures
        allocation == granted(capacity, available, desired_parallel_workers),
{
    let desired_workers: usize = match desired_parallel_workers {
        Some(desired_workers) => desired_workers,
        None => {
            return (1, None);
        },
    };
    if desired_workers < MIN_PARALLEL_WORKER_COUNT || capacity < MIN_PARALLEL_ROLE_COUNT
        || available < MIN_PARALLEL_ROLE_COUNT {
        return (1, None);
    }
    let mut roles: usize = desired_workers.saturating_add(PARALLEL_COORDINATOR_COUNT);
    if roles > capacity {
        roles = capacity;
    }
    if roles > available {
        roles = available;
    }
    (roles, Some(roles - PARALLEL_COORDINATOR_COUNT))
}

/// A grant stays within what is available; a parallel one has at least two workers, no more than
/// were asked for, beside its two coordinators.
pub proof fn law_grants_are_clamped(
    capacity: usize,
    available: usize,
    desired_parallel_workers: Option<usize>,
)
    requires
        0 < available <= capacity,
    ensures
        ({
            let (slots, workers) = granted(capacity, available, desired_parallel_workers);
            &&& 0 < slots <= available
            &&& workers is None ==> slots == 1
            &&& workers matches Some(workers) ==> {
                &&& workers + PARALLEL_COORDINATOR_COUNT == slots
                &&& MIN_PARALLEL_WORKER_COUNT <= workers <= desired_parallel_workers->0
            }
        }),
{
}

/// Slots held by a running scheduler.
#[derive(Debug, PartialEq, Eq)]
pub struct ResourcePermit {
    slots: usize,
}

impl View for ResourcePermit {
    type V = usize;

    closed spec fn view(&self) -> usize {
        self.slots
    }
}

/// The roles granted to a scheduler.
#[derive(Debug, PartialEq, Eq)]
pub enum ExecutionAllocation {
    /// One sequential role.
    Sequential {
        /// The slots held.
        permit: ResourcePermit,
    },
    /// Workers beside the two coordinators.
    Parallel {
        /// The number of workers.
        workers: usize,
        /// The slots held.
        permit: ResourcePermit,
    },
}

impl ExecutionAllocation {
    /// The slots held.
    pub open spec fn slots(self) -> usize {
        match self {
            ExecutionAllocation::Sequential { permit } => permit@,
            ExecutionAllocation::Parallel { permit, .. } => permit@,
        }
    }

    /// The allocation is what a request was granted.
    pub open spec fn is_grant(self, grant: (usize, Option<usize>)) -> bool {
        &&& self.slots() == grant.0
        &&& match self {
            ExecutionAllocation::Sequential { .. } => grant.1 is None,
            ExecutionAllocation::Parallel { workers, .. } => grant.1 == Some(workers),
        }
    }

    /// Gives everything but one role back, for the sequential rest of a parallel run. A
    /// sequential allocation is left as it is.
    pub fn retain_sequential_role(&mut self, resources: &mut ExecutionResources)
        requires
            old(resources).wf(),
            old(self).slots() > 0,
            old(resources).available_slots() + old(self).slots() <= old(
                resources,
            ).capacity_slots(),
        ensures
            final(resources).wf(),
            final(resources).capacity_slots() == old(resources).capacity_slots(),
            final(resources).queue() == old(resources).queue(),
            final(resources).next_id() == old(resources).next_id(),
            *old(self) is Sequential ==> *final(self) == *old(self)
                && final(resources).available_slots() == old(resources).available_slots(),
            *old(self) is Parallel ==> {
                &&& *final(self) is Parallel
                &&& final(self)->workers == old(self)->workers
                &&& final(self).slots() == 1
                &&& final(resources).available_slots() == old(resources).available_slots() + old(
                    self,
                ).slots() - 1
            },
    {
        match self {
            ExecutionAllocation::Sequential { .. } => {},
            ExecutionAllocation::Parallel { permit, .. } => {
                permit.retain(1, resources);
            },
        }
    }
}

impl ResourcePermit {
    /// Keeps `slots` slots and gives the others back.
    pub fn retain(&mut self, slots: usize, resources: &mut ExecutionResources)
        requires
            old(resources).wf(),
            0 < slots <= old(self)@,
            old(resources).available_slots() + old(self)@ <= old(resources).capacity_slots(),
        ensures
            final(self)@ == slots,
            final(resources).wf(),
            final(resources).capacity_slots() == old(resources).capacity_slots(),
            final(resources).queue() == old(resources).queue(),
            final(resources).next_id() == old(resources).next_id(),
            final(resources).available_slots() + final(self)@ == old(resources).available_slots()
                + old(self)@,
    {
        let released: usize = self.slots - slots;
        self.slots = slots;
        resources.available = resources.available + released;
    }
}

/// What a scheduler that asks for roles has to do.
#[derive(Debug, PartialEq, Eq)]
pub enum AcquireStep {
    /// The caller asked to stop; the scheduler no longer waits.
    Interrupted,
    /// The roles are granted.
    Granted {
        /// The granted roles.
        allocation: ExecutionAllocation,
    },
    /// Wait until something changes, then ask again with the waiter id.
    Wait {
        /// Identifies the place in the queue.
        waiter: u64,
    },
}

/// A shared limit on active execution roles.
///
/// Parallel schedulers consume one slot per speculative worker plus one slot for finality and one
/// for ordered commit. Sequential execution consumes one slot. Requests are served in the order in
/// which they arrived.
pub struct ExecutionResources {
    capacity: usize,
    available: usize,
    next_waiter: u64,
    waiters: VecDeque<u64>,
}

/// What one step of a request for roles does: `waiter` is its place in the queue, if it has one
/// already.
pub open spec fn acquired(
    before: ExecutionResources,
    after: ExecutionResources,
    desired_parallel_workers: Option<usize>,
    waiter: Option<u64>,
    cancelled: bool,
    step: AcquireStep,
) -> bool {
    let id = match waiter {
        Some(waiter) => waiter,
        None => before.next_id(),
    };
    let queued = match waiter {
        Some(_) => before.queue(),
        None => before.queue().push(id),
    };
    let next_id = if waiter is None && !cancelled {
        before.next_id() + 1
    } else {
        before.next_id() as int
    };
    let served = queued[0] == id && queued.len() > 0 && before.available_slots() > 0;
    &&& after.next_id() == next_id
    &&& match step {
        AcquireStep::Interrupted => {
            &&& cancelled
            &&& after.available_slots() == before.available_slots()
            &&& after.queue() == match waiter {
                Some(waiter) => before.queue().filter(|id: u64| id != waiter),
                None => before.queue(),
            }
        },
        AcquireStep::Granted { allocation } => {
            &&& !cancelled && served
            &&& allocation.is_grant(
                granted(
                    before.capacity_slots(),
                    before.available_slots(),
                    desired_parallel_workers,
                ),
            )
            &&& after.queue() == queued.drop_first()
            &&& after.available_slots() + allocation.slots() == before.available_slots()
        },
        AcquireStep::Wait { waiter } => {
            &&& !cancelled && !served
            &&& waiter == id
            &&& after.queue() == queued
            &&& after.available_slots() == before.available_slots()
        },
    }
}

impl ExecutionResources {
    /// The number of slots.
    pub closed spec fn capacity_slots(&self) -> usize {
        self.capacity
    }

    /// The number of free slots.
    pub closed spec fn available_slots(&self) -> usize {
        self.available
    }

    /// The waiting requests, in the order in which they arrived.
    pub closed spec fn queue(&self) -> Seq<u64> {
        self.waiters@
    }

    /// The id of the next waiting request.
    pub closed spec fn next_id(&self) -> u64 {
        self.next_waiter
    }

    /// There is a slot, no more slots are free than exist, and waiters are queued by arrival.
    pub closed spec fn wf(&self) -> bool {
        &&& self.capacity > 0
        &&& self.available <= self.capacity
        &&& forall|i: int|
            0 <= i < self.waiters@.len() ==> #[trigger] self.waiters@[i] < self.next_waiter
        &&& forall|i: int, j: int|
            0 <= i < j < self.waiters@.len() ==> #[trigger] self.waiters@[i]
                < #[trigger] self.waiters@[j]
    }

    /// What the representation invariant says.
    pub broadcast proof fn lemma_wf(&self)
        requires
            #[trigger] self.wf(),
        ensures
            self.capacity_slots() > 0,
            self.available_slots() <= self.capacity_slots(),
            forall|i: int, j: int|
                0 <= i < j < self.queue().len() ==> #[trigger] self.queue()[i]
                    < #[trigger] self.queue()[j],
            forall|i: int| 0 <= i < self.queue().len() ==> #[trigger] self.queue()[i]
                < self.next_id(),
    {
    }

    /// Creates an independent budget with `max_active_roles` slots.
    pub fn dedicated(max_active_roles: usize) -> (resources: Self)
        requires
            max_active_roles > 0,
        ensures
            resources.wf(),
            resources.capacity_slots() == max_active_roles,
            resources.available_slots() == max_active_roles,
            resources.queue() == Seq::<u64>::empty(),
            resources.next_id() == 0,
    {
        ExecutionResources {
            capacity: max_active_roles,
            available: max_active_roles,
            next_waiter: 0,
            waiters: VecDeque::new(),
        }
    }

    /// Returns the maximum number of active execution roles coordinated by this budget.
    pub fn capacity(&self) -> (capacity: usize)
        requires
            self.wf(),
        ensures
            capacity == self.capacity_slots(),
            capacity > 0,
    {
        self.capacity
    }

    /// The number of free slots.
    pub fn available(&self) -> (available: usize)
        ensures
            available == self.available_slots(),
    {
        self.available
    }

    /// The number of waiting requests.
    pub fn waiter_count(&self) -> (count: usize)
        ensures
            count == self.queue().len(),
    {
        self.waiters.len()
    }

    /// Joins the end of the queue.
    fn enqueue(&mut self) -> (waiter: u64)
        requires
            old(self).wf(),
            old(self).next_id() < u64::MAX,
        ensures
            final(self).wf(),
            waiter == old(self).next_id(),
            final(self).next_id() == waiter + 1,
            final(self).queue() == old(self).queue().push(waiter),
            final(self).capacity_slots() == old(self).capacity_slots(),
            final(self).available_slots() == old(self).available_slots(),
    {
        let waiter: u64 = self.next_waiter;
        self.next_waiter = waiter + 1;
        self.waiters.push_back(waiter);
        waiter
    }

    /// Leaves the queue, wherever in it the request stands; `true` asks to wake every waiter.
    pub fn cancel_waiter(&mut self, waiter: u64) -> (left: bool)
        requires
            old(self).wf(),
        ensures
            final(self).wf(),
            final(self).capacity_slots() == old(self).capacity_slots(),
            final(self).available_slots() == old(self).available_slots(),
            final(self).next_id() == old(self).next_id(),
            left == old(self).queue().contains(waiter),
            final(self).queue() == old(self).queue().filter(|id: u64| id != waiter),
    {
        let ghost before = self.waiters@;
        let mut position: usize = 0;
        while position < self.waiters.len()
            invariant
                self.wf(),
                *self == *old(self),
                before == self.waiters@,
                position <= before.len(),
                forall|i: int| 0 <= i < position ==> #[trigger] before[i] != waiter,
            decreases before.len() - position,
        {
            if self.waiters[position] == waiter {
                proof {
                    assert(before[position as int] == waiter);
                    lemma_filter_one(before, position as int, waiter);
                }
                self.waiters.remove(position);
                return true;
            }
            position = position + 1;
        }
        proof {
            lemma_filter_none(before, waiter);
        }
        false
    }

    /// Serves the request at the head of the queue if a slot is free.
    fn grant(&mut self, waiter: u64, desired_parallel_workers: Option<usize>) -> (allocation:
        Option<ExecutionAllocation>)
        requires
            old(self).wf(),
        ensures
            final(self).wf(),
            final(self).capacity_slots() == old(self).capacity_slots(),
            final(self).next_id() == old(self).next_id(),
            ({
                let served = old(self).queue().len() > 0 && old(self).queue()[0] == waiter && old(
                    self,
                ).available_slots() > 0;
                match allocation {
                    Some(allocation) => {
                        &&& served
                        &&& allocation.is_grant(
                            granted(
                                old(self).capacity_slots(),
                                old(self).available_slots(),
                                desired_parallel_workers,
                            ),
                        )
                        &&& final(self).queue() == old(self).queue().drop_first()
                        &&& final(self).available_slots() + allocation.slots() == old(
                            self,
                        ).available_slots()
                    },
                    None => {
                        &&& !served
                        &&& final(self).queue() == old(self).queue()
                        &&& final(self).available_slots() == old(self).available_slots()
                    },
                }
            }),
    {
        if self.waiters.len() > 0 && self.waiters[0] == waiter && self.available > 0 {
            let (slots, workers) = allocation_for(
                self.capacity,
                self.available,
                desired_parallel_workers,
            );
            proof {
                law_grants_are_clamped(self.capacity, self.available, desired_parallel_workers);
            }
            self.available = self.available - slots;
            self.waiters.pop_front();
            let permit = ResourcePermit { slots };
            match workers {
                Some(workers) => Some(ExecutionAllocation::Parallel { workers, permit }),
                None => Some(ExecutionAllocation::Sequential { permit }),
            }
        } else {
            None
        }
    }

    /// One step of a request for roles. The first step joins the queue unless the caller asks to
    /// stop; every step serves the request once it heads the queue and a slot is free; a request
    /// whose caller asks to stop leaves the queue.
    pub fn acquire_inner(
        &mut self,
        desired_parallel_workers: Option<usize>,
        waiter: Option<u64>,
        cancelled: bool,
    ) -> (step: AcquireStep)
        requires
            old(self).wf(),
            waiter is None && !cancelled ==> old(self).next_id() < u64::MAX,
        ensures
            final(self).wf(),
            final(self).capacity_slots() == old(self).capacity_slots(),
            acquired(*old(self), *final(self), desired_parallel_workers, waiter, cancelled, step),
    {
        if cancelled {
            if let Some(waiter) = waiter {
                self.cancel_waiter(waiter);
            }
            return AcquireStep::Interrupted;
        }
        let id: u64 = match waiter {
            Some(waiter) => waiter,
            None => self.enqueue(),
        };
        match self.grant(id, desired_parallel_workers) {
            Some(allocation) => AcquireStep::Granted { allocation },
            None => AcquireStep::Wait { waiter: id },
        }
    }

    /// Acquires roles from a budget that has a free slot and no waiters.
    pub fn acquire(&mut self, desired_parallel_workers: Option<usize>) -> (allocation:
        ExecutionAllocation)
        requires
            old(self).wf(),
            old(self).available_slots() > 0,
            old(self).queue().len() == 0,
            old(self).next_id() < u64::MAX,
        ensures
            final(self).wf(),
            final(self).capacity_slots() == old(self).capacity_slots(),
            final(self).queue() == old(self).queue(),
            final(self).next_id() == old(self).next_id() + 1,
            allocation.is_grant(
                granted(
                    old(self).capacity_slots(),
                    old(self).available_slots(),
                    desired_parallel_workers,
                ),
            ),
            final(self).available_slots() + allocation.slots() == old(self).available_slots(),
    {
        let ghost before = self.queue();
        let waiter: u64 = self.enqueue();
        let allocation = self.grant(waiter, desired_parallel_workers);
        assert(self.queue() =~= before);
        allocation.unwrap()
    }

    /// First step of a request for roles that the caller may cancel.
    pub fn acquire_with_cancellation<C: FnOnce() -> bool>(
        &mut self,
        desired_parallel_workers: Option<usize>,
        cancelled: C,
    ) -> (step: AcquireStep)
        requires
            old(self).wf(),
            old(self).next_id() < u64::MAX,
            call_requires(cancelled, ()),
        ensures
            final(self).wf(),
            step is Interrupted ==> call_ensures(cancelled, (), true) && *final(self) == *old(self),
            !(step is Interrupted) ==> {
                &&& call_ensures(cancelled, (), false)
                &&& final(self).capacity_slots() == old(self).capacity_slots()
                &&& final(self).next_id() == old(self).next_id() + 1
            },
            step matches AcquireStep::Granted { allocation } ==> {
                &&& old(self).queue().len() == 0
                &&& old(self).available_slots() > 0
                &&& allocation.is_grant(
                    granted(
                        old(self).capacity_slots(),
                        old(self).available_slots(),
                        desired_parallel_workers,
                    ),
                )
                &&& final(self).available_slots() + allocation.slots() == old(
                    self,
                ).available_slots()
                &&& final(self).queue().len() == 0
            },
            step matches AcquireStep::Wait { waiter } ==> {
                &&& old(self).queue().len() > 0 || old(self).available_slots() == 0
                &&& waiter == old(self).next_id()
                &&& final(self).queue() == old(self).queue().push(waiter)
                &&& final(self).available_slots() == old(self).available_slots()
            },
    {
        if cancelled() {
            return AcquireStep::Interrupted;
        }
        self.acquire_inner(desired_parallel_workers, None, false)
    }

    /// Gives slots back.
    pub fn release(&mut self, allocation: ExecutionAllocation)
        requires
            old(self).wf(),
            old(self).available_slots() + allocation.slots() <= old(self).capacity_slots(),
        ensures
            final(self).wf(),
            final(self).capacity_slots() == old(self).capacity_slots(),
            final(self).queue() == old(self).queue(),
            final(self).next_id() == old(self).next_id(),
            final(self).available_slots() == old(self).available_slots() + allocation.slots(),
    {
        let slots: usize = match allocation {
            ExecutionAllocation::Sequential { permit } => permit.slots,
            ExecutionAllocation::Parallel { permit, .. } => permit.slots,
        };
        self.available = self.available + slots;
    }
}

/// Filtering out an id that occurs once removes its position.
pub(crate) proof fn lemma_filter_one(queue: Seq<u64>, position: int, waiter: u64)
    requires
        0 <= position < queue.len(),
        queue[position] == waiter,
        forall|i: int, j: int|
            0 <= i < j < queue.len() ==> #[trigger] queue[i] < #[trigger] queue[j],
    ensures
        queue.remove(position) == queue.filter(|id: u64| id != waiter),
    decreases queue.len(),
{
    reveal(Seq::filter);
    let keep = |id: u64| id != waiter;
    let shorter = queue.drop_last();
    if position == queue.len() - 1 {
        lemma_filter_none(shorter, waiter);
        assert(queue.remove(position) =~= shorter);
    } else {
        lemma_filter_one(shorter, position, waiter);
        assert(queue[position] < queue[queue.len() - 1]);
        assert(queue.remove(position) =~= shorter.remove(position).push(queue.last()));
    }
}

/// Filtering out an id that does not occur changes nothing.
pub(crate) proof fn lemma_filter_none(queue: Seq<u64>, waiter: u64)
    requires
        forall|i: int| 0 <= i < queue.len() ==> #[trigger] queue[i] != waiter,
    ensures
        queue.filter(|id: u64| id != waiter) == queue,
    decreases queue.len(),
{
    reveal(Seq::filter);
    if queue.len() > 0 {
        lemma_filter_none(queue.drop_last(), waiter);
        assert(queue =~= queue.drop_last().push(queue.last()));
    }
}

/// Requests are served in the order in which they arrived: the head of the queue arrived before
/// everybody else in it.
pub proof fn law_queue_is_fifo(resources: ExecutionResources, behind: int)
    requires
        resources.wf(),
        0 < behind < resources.queue().len(),
    ensures
        resources.queue()[0] < resources.queue()[behind],
{
    resources.lemma_wf();
}

/// The slots that a list of allocations holds together.
pub open spec fn slots_held(held: Seq<usize>) -> nat
    decreases held.len(),
{
    if held.len() == 0 {
        0
    } else {
        slots_held(held.drop_last()) + held.last() as nat
    }
}

/// Removing an allocation from a list removes its slots from the sum.
pub(crate) proof fn lemma_slots_removed(held: Seq<usize>, index: int)
    requires
        0 <= index < held.len(),
    ensures
        slots_held(held) == slots_held(held.remove(index)) + held[index],
    decreases held.len(),
{
    if index == held.len() - 1 {
        assert(held.remove(index) =~= held.drop_last());
    } else {
        lemma_slots_removed(held.drop_last(), index);
        assert(held.remove(index).drop_last() =~= held.drop_last().remove(index));
        assert(held.remove(index).last() == held.last());
    }
}

/// The allocations never hold more slots than the budget has: as long as the free slots and the
/// held ones make up the capacity, they still do after a grant and after a release, and every held
/// allocation can be released.
pub proof fn law_budget_is_never_exceeded(
    capacity: usize,
    available: usize,
    held: Seq<usize>,
    desired_parallel_workers: Option<usize>,
    released: int,
)
    requires
        available + slots_held(held) == capacity,
        0 <= released < held.len(),
    ensures
        available > 0 ==> {
            let (slots, _) = granted(capacity, available, desired_parallel_workers);
            &&& slots <= available
            &&& (available - slots) + slots_held(held.push(slots)) == capacity
        },
        available + held[released] <= capacity,
        (available + held[released]) + slots_held(held.remove(released)) == capacity,
{
    lemma_slots_removed(held, released);
    if available > 0 {
        let (slots, _) = granted(capacity, available, desired_parallel_workers);
        law_grants_are_clamped(capacity, available, desired_parallel_workers);
        assert(held.push(slots).drop_last() =~= held);
    }
}

/// What a request is granted. It is parallel exactly if two workers or more were asked for and four
/// slots or more are free; then it takes a slot for each worker and two more, with all the workers
/// asked for if they are to be had and as many as are to be had if not. Otherwise it is one slot.
pub proof fn law_grants_take_what_is_to_be_had(
    capacity: usize,
    available: usize,
    desired_parallel_workers: Option<usize>,
)
    requires
        available <= capacity,
    ensures
        ({
            let (slots, workers) = granted(capacity, available, desired_parallel_workers);
            &&& workers is Some <==> desired_parallel_workers is Some
                && desired_parallel_workers->0 >= 2 && available >= 4
            &&& workers is None ==> slots == 1
            &&& workers is Some ==> slots == workers->0 + 2
            &&& workers is Some && desired_parallel_workers->0 + 2 <= available ==> workers->0
                == desired_parallel_workers->0
            &&& workers is Some && desired_parallel_workers->0 + 2 > available ==> slots == available
        }),
{
}

/// How a step of a request ends. A caller who asks to stop is told so and is in the queue no more.
/// A request that heads the queue while a slot is free is granted, and so is a new one that finds
/// nobody waiting; every other one waits, a new one behind all others. Nobody else in the queue
/// loses their place.
pub proof fn law_requests_are_served_in_order(
    before: ExecutionResources,
    after: ExecutionResources,
    desired_parallel_workers: Option<usize>,
    waiter: Option<u64>,
    cancelled: bool,
    step: AcquireStep,
)
    requires
        before.wf(),
        acquired(before, after, desired_parallel_workers, waiter, cancelled, step),
    ensures
        step is Interrupted <==> cancelled,
        cancelled ==> {
            &&& after.available_slots() == before.available_slots()
            &&& after.next_id() == before.next_id()
            &&& waiter is Some ==> !after.queue().contains(waiter->0)
            &&& waiter is None ==> after.queue() == before.queue()
        },
        !cancelled && waiter is None ==> (step is Granted <==> before.queue().len() == 0
            && before.available_slots() > 0),
        !cancelled && waiter is Some && before.queue().len() > 0 ==> (step is Granted
            <==> before.queue()[0] == waiter->0 && before.available_slots() > 0),
        step is Granted && waiter is Some && before.queue().len() > 0 ==> after.queue()
            == before.queue().skip(1),
        step is Granted && waiter is None ==> after.queue().len() == 0,
        step matches AcquireStep::Granted { allocation } ==> {
            &&& after.available_slots() == before.available_slots() - allocation.slots()
            &&& allocation is Parallel <==> desired_parallel_workers is Some
                && desired_parallel_workers->0 >= 2 && before.available_slots() >= 4
            &&& allocation is Sequential ==> allocation.slots() == 1
            &&& allocation is Parallel ==> {
                &&& allocation.slots() == allocation->workers + 2
                &&& allocation->workers == if desired_parallel_workers->0 + 2
                    <= before.available_slots() {
                    desired_parallel_workers->0 as int
                } else {
                    before.available_slots() - 2
                }
            }
        },
        !cancelled && waiter is None ==> after.next_id() == before.next_id() + 1,
        waiter is Some ==> after.next_id() == before.next_id(),
        step is Wait ==> {
            &&& after.available_slots() == before.available_slots()
            &&& waiter is Some ==> step->waiter == waiter->0 && after.queue() == before.queue()
            &&& waiter is None ==> step->waiter == before.next_id() && after.queue()
                == before.queue().push(before.next_id())
        },
{
    broadcast use vstd::seq_lib::group_filter_ensures;

    before.lemma_wf();
    if let AcquireStep::Granted { allocation } = step {
        law_grants_are_clamped(
            before.capacity_slots(),
            before.available_slots(),
            desired_parallel_workers,
        );
        law_grants_take_what_is_to_be_had(
            before.capacity_slots(),
            before.available_slots(),
            desired_parallel_workers,
        );
        if waiter is Some && before.queue().len() > 0 {
            assert(before.queue().drop_first() =~= before.queue().skip(1));
        }
    }
    if cancelled && waiter is Some && after.queue().contains(waiter->0) {
        let gone = waiter->0;
        let keep = |id: u64| id != gone;
        assert(after.queue() == before.queue().filter(keep));
        let i = choose|i: int| 0 <= i < after.queue().len() && after.queue()[i] == gone;
        before.queue().lemma_filter_pred(keep, i);
    }
}

} // verus!
