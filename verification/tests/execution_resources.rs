use grevm::execution_resources::{
    allocation_for, AcquireStep, ExecutionAllocation, ExecutionResources,
};
use grevm::test_utils::execution_resources_for_workers;

#[test]
fn parallel_allocation_is_clamped_to_capacity() {
    let mut resources = ExecutionResources::dedicated(4);
    let mut allocation = resources.acquire(Some(usize::MAX));

    let ExecutionAllocation::Parallel { workers, .. } = allocation else {
        panic!("four roles must allow parallel execution")
    };
    assert_eq!(workers, 2);
    assert_eq!(resources.available(), 0);
    allocation.retain_sequential_role(&mut resources);
    assert_eq!(resources.available(), 3);
    resources.release(allocation);
    assert_eq!(resources.available(), 4);
}

#[test]
fn small_budgets_and_single_worker_requests_are_sequential() {
    for capacity in 1..=3 {
        let mut resources = ExecutionResources::dedicated(capacity);
        assert!(matches!(resources.acquire(Some(8)), ExecutionAllocation::Sequential { .. }));
    }

    let mut resources = ExecutionResources::dedicated(8);
    assert!(matches!(resources.acquire(Some(1)), ExecutionAllocation::Sequential { .. }));
}

fn waiting(step: AcquireStep) -> u64 {
    let AcquireStep::Wait { waiter } = step else { panic!("the request must wait") };
    waiter
}

#[test]
fn cancellation_removes_a_waiter_and_releases_the_next_one() {
    let mut resources = ExecutionResources::dedicated(1);
    let first = resources.acquire(None);

    let cancelled = waiting(resources.acquire_with_cancellation(None, || false));
    assert_eq!(resources.waiter_count(), 1);
    let next = waiting(resources.acquire_inner(None, None, false));
    assert_eq!(resources.waiter_count(), 2);

    assert_eq!(resources.acquire_inner(None, Some(cancelled), true), AcquireStep::Interrupted);
    assert_eq!(resources.waiter_count(), 1);
    assert_eq!(
        resources.acquire_inner(None, Some(next), false),
        AcquireStep::Wait { waiter: next }
    );

    resources.release(first);
    let AcquireStep::Granted { allocation } = resources.acquire_inner(None, Some(next), false)
    else {
        panic!("next waiter did not acquire the released permit")
    };
    assert_eq!(resources.available(), 0);
    resources.release(allocation);
    assert_eq!(resources.available(), 1);
}

#[test]
fn panicking_cancellation_check_does_not_strand_the_fifo() {
    let mut resources = ExecutionResources::dedicated(1);
    let _first = resources.acquire(None);
    let waiter = waiting(resources.acquire_with_cancellation(None, || false));
    assert_eq!(resources.waiter_count(), 1);

    // The check panics while the request waits: its place in the queue is given up.
    assert!(resources.cancel_waiter(waiter));
    assert!(!resources.cancel_waiter(waiter));
    assert_eq!(resources.waiter_count(), 0);
}

#[test]
fn queued_allocations_are_fifo() {
    let mut resources = ExecutionResources::dedicated(1);
    let held = resources.acquire(None);
    let first = waiting(resources.acquire_inner(None, None, false));
    let second = waiting(resources.acquire_inner(None, None, false));
    assert!(first < second);

    resources.release(held);
    // A slot is free, but the second request is not at the head of the queue.
    assert_eq!(
        resources.acquire_inner(None, Some(second), false),
        AcquireStep::Wait { waiter: second }
    );
    let AcquireStep::Granted { allocation } = resources.acquire_inner(None, Some(first), false)
    else {
        panic!("first waiter did not acquire the released permit")
    };
    resources.release(allocation);
    assert!(matches!(
        resources.acquire_inner(None, Some(second), false),
        AcquireStep::Granted { .. }
    ));
}

#[test]
fn an_early_cancellation_does_not_join_the_queue() {
    let mut resources = ExecutionResources::dedicated(2);
    assert_eq!(resources.acquire_with_cancellation(Some(4), || true), AcquireStep::Interrupted);
    assert_eq!(resources.waiter_count(), 0);
    assert_eq!(resources.available(), 2);
}

#[test]
fn grants_reserve_both_coordinators() {
    // Capacity, free slots, wanted workers; slots and workers granted.
    assert_eq!(allocation_for(8, 8, Some(4)), (6, Some(4)));
    assert_eq!(allocation_for(8, 8, Some(100)), (8, Some(6)));
    assert_eq!(allocation_for(8, 5, Some(4)), (5, Some(3)));
    assert_eq!(allocation_for(8, 3, Some(4)), (1, None));
    assert_eq!(allocation_for(8, 8, None), (1, None));
}

#[test]
fn a_budget_for_workers_includes_the_coordinators() {
    let mut resources = execution_resources_for_workers(5);
    assert_eq!(resources.capacity(), 7);
    let allocation = resources.acquire(Some(5));
    assert!(matches!(allocation, ExecutionAllocation::Parallel { workers: 5, .. }));
}

#[test]
fn free_and_held_slots_make_up_the_capacity() {
    let mut resources = ExecutionResources::dedicated(9);
    let mut first = resources.acquire(Some(3));
    assert_eq!(resources.available(), 4);
    let second = resources.acquire(Some(8));
    assert!(matches!(second, ExecutionAllocation::Parallel { workers: 2, .. }));
    assert_eq!(resources.available(), 0);
    let third = waiting(resources.acquire_inner(Some(2), None, false));
    let fourth = waiting(resources.acquire_inner(None, None, false));
    // The first one keeps a single role; the slots that it gives back serve the head of the queue.
    first.retain_sequential_role(&mut resources);
    assert_eq!(resources.available(), 4);
    assert_eq!(
        resources.acquire_inner(None, Some(fourth), false),
        AcquireStep::Wait { waiter: fourth }
    );
    let AcquireStep::Granted { allocation } = resources.acquire_inner(Some(2), Some(third), false)
    else {
        panic!("the head of the queue is served")
    };
    assert!(matches!(allocation, ExecutionAllocation::Parallel { workers: 2, .. }));
    assert_eq!(resources.available(), 0);
    assert_eq!(resources.acquire_inner(None, Some(fourth), true), AcquireStep::Interrupted);
    for held in [first, second, allocation] {
        resources.release(held);
    }
    assert_eq!(resources.available(), 9);
    assert_eq!(resources.waiter_count(), 0);
}
