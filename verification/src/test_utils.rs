//! Utilities for tests and benchmarks.

use crate::config::{ExecutionProfile, GrevmConfig, InvalidTransactionPolicy, SchedulerTuning};
use crate::delegated_safety::DelegatedSafetyConfig;
use crate::execution_resources::ExecutionResources;
use vstd::prelude::*;

verus! {

broadcast use GrevmConfig::lemma_combined;

/// Gas limit for native transfer transactions.
pub const TRANSFER_GAS_LIMIT: u64 = 21_000;

/// Builds a runtime configuration with independently selectable policies for differential tests.
///
/// Production integrations should use a complete named [`GrevmConfig`] profile.
pub fn runtime_config_with_policies(
    tuning: SchedulerTuning,
    invalid_transaction_policy: InvalidTransactionPolicy,
    delegated_safety: DelegatedSafetyConfig,
) -> (config: GrevmConfig)
    ensures
        config == GrevmConfig::combined(tuning, invalid_transaction_policy, delegated_safety),
{
    GrevmConfig::new(tuning, ExecutionProfile::default()).with_invalid_transaction_policy(
        invalid_transaction_policy,
    ).with_delegated_safety(delegated_safety)
}

/// Creates an isolated role budget large enough to exercise at least two speculative workers.
pub fn execution_resources_for_workers(workers: usize) -> (resources: ExecutionResources)
    ensures
        resources.wf(),
        ({
            let at_least_two = if workers < 2 {
                2
            } else {
                workers as int
            };
            resources.capacity_slots() == if at_least_two + 2 > usize::MAX {
                usize::MAX as int
            } else {
                at_least_two + 2
            }
        }),
        resources.available_slots() == resources.capacity_slots(),
        resources.queue() == Seq::<u64>::empty(),
        resources.next_id() == 0,
{
    let at_least_two: usize = if workers < 2 {
        2
    } else {
        workers
    };
    let roles: usize = at_least_two.saturating_add(2);
    ExecutionResources::dedicated(roles)
}

} // verus!
