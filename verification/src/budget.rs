//! Histories of a role budget: who holds roles, who waits, and who was served.

use crate::execution_resources::{
    acquired, granted, law_grants_are_clamped, lemma_filter_none, lemma_filter_one,
    lemma_slots_removed, slots_held, AcquireStep, ExecutionResources,
};
use vstd::prelude::*;

verus! {

/// A budget together with the allocations that are held and the requests that were served.
#[verifier::ext_equal]
pub struct Budget {
    /// The number of slots.
    pub capacity: usize,
    /// The number of free slots.
    pub available: int,
    /// The waiting requests, in the order in which they arrived.
    pub queue: Seq<u64>,
    /// The id of the next request.
    pub next_id: int,
    /// The slots of every live allocation.
    pub held: Seq<usize>,
    /// The served requests, in the order in which they were served.
    pub served: Seq<u64>,
}

/// What happens to a budget.
pub enum BudgetEvent {
    /// A request joins the queue.
    Join,
    /// The request at the head of the queue is served.
    Serve {
        /// The workers that it asks for.
        desired_parallel_workers: Option<usize>,
    },
    /// A request leaves the queue.
    Cancel {
        /// Its place in the queue.
        waiter: u64,
    },
    /// An allocation is given back.
    Release {
        /// Which of the live ones.
        index: int,
    },
    /// An allocation keeps some of its slots and gives the others back.
    Retain {
        /// Which of the live ones.
        index: int,
        /// The slots that it keeps.
        slots: usize,
    },
}

impl Budget {
    /// A budget that nobody used yet.
    pub open spec fn unused(capacity: usize) -> Budget {
        Budget {
            capacity,
            available: capacity as int,
            queue: Seq::empty(),
            next_id: 0,
            held: Seq::empty(),
            served: Seq::empty(),
        }
    }

    /// The budget as `resources` has it, with the given allocations and served requests.
    pub open spec fn of(
        resources: ExecutionResources,
        held: Seq<usize>,
        served: Seq<u64>,
    ) -> Budget {
        Budget {
            capacity: resources.capacity_slots(),
            available: resources.available_slots() as int,
            queue: resources.queue(),
            next_id: resources.next_id() as int,
            held,
            served,
        }
    }

    /// The event can happen.
    pub open spec fn allows(self, event: BudgetEvent) -> bool {
        match event {
            BudgetEvent::Join => self.next_id < u64::MAX,
            BudgetEvent::Serve { .. } => self.queue.len() > 0 && self.available > 0,
            BudgetEvent::Cancel { .. } => true,
            BudgetEvent::Release { index } => 0 <= index < self.held.len(),
            BudgetEvent::Retain { index, slots } => 0 <= index < self.held.len() && 0 < slots
                <= self.held[index],
        }
    }

    /// The budget after the event.
    pub open spec fn after(self, event: BudgetEvent) -> Budget {
        match event {
            BudgetEvent::Join => Budget {
                queue: self.queue.push(self.next_id as u64),
                next_id: self.next_id + 1,
                ..self
            },
            BudgetEvent::Serve { desired_parallel_workers } => {
                let (slots, _) = granted(
                    self.capacity,
                    self.available as usize,
                    desired_parallel_workers,
                );
                Budget {
                    available: self.available - slots,
                    queue: self.queue.drop_first(),
                    held: self.held.push(slots),
                    served: self.served.push(self.queue[0]),
                    ..self
                }
            },
            BudgetEvent::Cancel { waiter } => Budget {
                queue: self.queue.filter(|id: u64| id != waiter),
                ..self
            },
            BudgetEvent::Release { index } => Budget {
                available: self.available + self.held[index],
                held: self.held.remove(index),
                ..self
            },
            BudgetEvent::Retain { index, slots } => Budget {
                available: self.available + self.held[index] - slots,
                held: self.held.update(index, slots),
                ..self
            },
        }
    }

    /// Free and held slots make up the capacity; requests were served in the order in which they
    /// arrived, and whoever still waits arrived after everybody who was served.
    pub open spec fn sound(self) -> bool {
        &&& 0 <= self.available
        &&& self.available + slots_held(self.held) == self.capacity
        &&& 0 <= self.next_id <= u64::MAX
        &&& forall|i: int|
            0 <= i < self.queue.len() ==> #[trigger] self.queue[i] < self.next_id
        &&& forall|i: int, j: int|
            0 <= i < j < self.queue.len() ==> #[trigger] self.queue[i] < #[trigger] self.queue[j]
        &&& forall|i: int, j: int|
            0 <= i < j < self.served.len() ==> #[trigger] self.served[i]
                < #[trigger] self.served[j]
        &&& forall|i: int|
            0 <= i < self.served.len() ==> #[trigger] self.served[i] < self.next_id
        &&& forall|i: int, j: int|
            0 <= i < self.served.len() && 0 <= j < self.queue.len() ==> #[trigger] self.served[i]
                < #[trigger] self.queue[j]
    }
}

/// The budget after the first `count` of `events`.
pub open spec fn budget_at(capacity: usize, events: Seq<BudgetEvent>, count: int) -> Budget
    decreases count,
{
    if count <= 0 {
        Budget::unused(capacity)
    } else {
        budget_at(capacity, events, count - 1).after(events[count - 1])
    }
}

/// Every event can happen where it does.
pub open spec fn budget_legal(capacity: usize, events: Seq<BudgetEvent>) -> bool {
    forall|i: int|
        0 <= i < events.len() ==> budget_at(capacity, events, i).allows(#[trigger] events[i])
}

/// Keeping some slots of an allocation takes the others from the sum.
proof fn lemma_slots_updated(held: Seq<usize>, index: int, slots: usize)
    requires
        0 <= index < held.len(),
    ensures
        slots_held(held.update(index, slots)) + held[index] == slots_held(held) + slots,
    decreases held.len(),
{
    if index == held.len() - 1 {
        assert(held.update(index, slots).drop_last() =~= held.drop_last());
    } else {
        lemma_slots_updated(held.drop_last(), index, slots);
        assert(held.update(index, slots).drop_last() =~= held.drop_last().update(index, slots));
    }
}

/// Leaving the queue keeps the order of the others.
proof fn lemma_cancelled(queue: Seq<u64>, waiter: u64)
    requires
        forall|i: int, j: int|
            0 <= i < j < queue.len() ==> #[trigger] queue[i] < #[trigger] queue[j],
    ensures
        ({
            let left = queue.filter(|id: u64| id != waiter);
            &&& !left.contains(waiter)
            &&& forall|i: int| 0 <= i < left.len() ==> queue.contains(#[trigger] left[i])
            &&& forall|i: int, j: int|
                0 <= i < j < left.len() ==> #[trigger] left[i] < #[trigger] left[j]
        }),
{
    let left = queue.filter(|id: u64| id != waiter);
    if queue.contains(waiter) {
        let position = choose|position: int|
            0 <= position < queue.len() && queue[position] == waiter;
        lemma_filter_one(queue, position, waiter);
        assert(left == queue.remove(position));
        assert forall|i: int| 0 <= i < left.len() implies queue.contains(#[trigger] left[i]) by {
            let from = if i < position {
                i
            } else {
                i + 1
            };
            assert(left[i] == queue[from]);
        }
        if left.contains(waiter) {
            let i = choose|i: int| 0 <= i < left.len() && left[i] == waiter;
            if i < position {
                assert(queue[i] < queue[position]);
            } else {
                assert(queue[position] < queue[i + 1]);
            }
        }
    } else {
        lemma_filter_none(queue, waiter);
    }
}

/// Every event keeps the budget sound.
proof fn lemma_event_keeps_soundness(budget: Budget, event: BudgetEvent)
    requires
        budget.sound(),
        budget.allows(event),
    ensures
        budget.after(event).sound(),
{
    let after = budget.after(event);
    match event {
        BudgetEvent::Join => {},
        BudgetEvent::Serve { desired_parallel_workers } => {
            let available = budget.available as usize;
            law_grants_are_clamped(budget.capacity, available, desired_parallel_workers);
            let (slots, _) = granted(budget.capacity, available, desired_parallel_workers);
            assert(budget.held.push(slots).drop_last() =~= budget.held);
            assert forall|i: int, j: int|
                0 <= i < after.served.len() && 0 <= j < after.queue.len() implies
                #[trigger] after.served[i] < #[trigger] after.queue[j] by {
                assert(after.queue[j] == budget.queue[j + 1]);
                if i < budget.served.len() {
                    assert(after.served[i] == budget.served[i]);
                } else {
                    assert(after.served[i] == budget.queue[0]);
                }
            }
            assert forall|i: int, j: int| 0 <= i < j < after.queue.len() implies
                #[trigger] after.queue[i] < #[trigger] after.queue[j] by {
                assert(budget.queue[i + 1] < budget.queue[j + 1]);
            }
        },
        BudgetEvent::Cancel { waiter } => {
            lemma_cancelled(budget.queue, waiter);
            assert forall|i: int| 0 <= i < after.queue.len() implies #[trigger] after.queue[i]
                < after.next_id by {
                assert(budget.queue.contains(after.queue[i]));
            }
            assert forall|i: int, j: int|
                0 <= i < after.served.len() && 0 <= j < after.queue.len() implies
                #[trigger] after.served[i] < #[trigger] after.queue[j] by {
                assert(budget.queue.contains(after.queue[j]));
            }
        },
        BudgetEvent::Release { index } => {
            lemma_slots_removed(budget.held, index);
        },
        BudgetEvent::Retain { index, slots } => {
            lemma_slots_updated(budget.held, index, slots);
        },
    }
}

/// In every history of requests, cancellations and releases, at every moment: the free slots and
/// the slots of all live allocations make up the capacity; requests were served in the order in
/// which they arrived; and nobody waits who arrived before somebody who was served, unless they
/// left the queue.
pub proof fn law_budget_histories_are_sound(
    capacity: usize,
    events: Seq<BudgetEvent>,
    moment: int,
)
    requires
        budget_legal(capacity, events),
        0 <= moment <= events.len(),
    ensures
        budget_at(capacity, events, moment).sound(),
        budget_at(capacity, events, moment).capacity == capacity,
    decreases moment,
{
    if moment > 0 {
        law_budget_histories_are_sound(capacity, events, moment - 1);
        let before = budget_at(capacity, events, moment - 1);
        assert(before.allows(events[moment - 1]));
        lemma_event_keeps_soundness(before, events[moment - 1]);
    }
}

/// A cancelled request takes no slot and does not wait any more; the others keep their order.
pub proof fn law_cancellation_only_leaves_the_queue(budget: Budget, waiter: u64)
    requires
        budget.sound(),
    ensures
        ({
            let after = budget.after(BudgetEvent::Cancel { waiter });
            &&& after.available == budget.available
            &&& after.held == budget.held
            &&& after.served == budget.served
            &&& !after.queue.contains(waiter)
            &&& after.queue == budget.queue.filter(|id: u64| id != waiter)
        }),
{
    lemma_cancelled(budget.queue, waiter);
}

/// The steps of a request are such events: a first step joins the queue, a granted one serves the
/// head of the queue, an interrupted one leaves it, and waiting changes nothing.
pub proof fn law_acquire_steps_are_budget_events(
    before: ExecutionResources,
    after: ExecutionResources,
    desired_parallel_workers: Option<usize>,
    waiter: Option<u64>,
    cancelled: bool,
    step: AcquireStep,
    held: Seq<usize>,
    served: Seq<u64>,
)
    requires
        acquired(before, after, desired_parallel_workers, waiter, cancelled, step),
        after.capacity_slots() == before.capacity_slots(),
        waiter is None && !cancelled ==> before.next_id() < u64::MAX,
    ensures
        ({
            let budget = Budget::of(before, held, served);
            let joined = if waiter is None {
                budget.after(BudgetEvent::Join)
            } else {
                budget
            };
            match step {
                AcquireStep::Interrupted => {
                    &&& cancelled
                    &&& Budget::of(after, held, served) == match waiter {
                        Some(waiter) => budget.after(BudgetEvent::Cancel { waiter }),
                        None => budget,
                    }
                },
                AcquireStep::Wait { .. } => Budget::of(after, held, served) == joined,
                AcquireStep::Granted { allocation } => {
                    &&& joined.allows(BudgetEvent::Serve { desired_parallel_workers })
                    &&& Budget::of(
                        after,
                        held.push(allocation.slots()),
                        served.push(joined.queue[0]),
                    ) == joined.after(BudgetEvent::Serve { desired_parallel_workers })
                },
            }
        }),
{
}

} // verus!
