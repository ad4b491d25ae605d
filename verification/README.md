# grevm

A parallel scheduler for Ethereum transactions in the style of Block-STM, written in Verus: workers
execute the transactions of a block speculatively, validate what they read, and an ordered commit
makes the results final in block order.

The library in `src/` holds every decision as a state machine with a contract. A method is one
atomic step; it says how the state after it follows from the state before it. `app/` is the ordinary
Rust around it: threads, locks, parking, clocks, the EVM, the database and metrics.

## Where to find what

| Modules | Content |
| --- | --- |
| `scheduler`, `scheduler_view` | The scheduler of one block and its mathematical content |
| `execution`, `validation`, `finality`, `commit` | The steps of the worker, finality and commit roles |
| `control`, `fallback`, `session` | One-shot runs, sequential replay, and sessions over batches |
| `prefix` | State and outcomes describe the same committed prefix |
| `soundness` | The invariant of a run, and that final results read what block order prescribes |
| `equivalence`, `history`, `ending` | Every interleaving of a parallel run gives what sequential execution gives, and ends where it ends |
| `mv_memory`, `read_set`, `tx_dependency`, `dependency_update` | Multi-version memory and the dependency graph |
| `account`, `cache`, `transitions`, `bundle`, `access_list`, `block_index`, `parallel_state` | The canonical state of a block |
| `concurrent_db` | Shared single-flight reads of the parent state |
| `execution_resources`, `budget`, `wait`, `atomic` | Role budgets, wake-ups and cursors |
| `config`, `delegated_safety`, `metrics`, `outcome` | Configuration, measurements and outcomes |

## What is proved

- A transaction that became final read, at every location, exactly what the last earlier writer in
  block order left there (`soundness::law_final_reads_follow_block_order`).
- However its steps interleave, a parallel run of a deterministic block commits the outcomes and the
  state of sequential execution (`history::law_runs_are_sound`, `history::law_parallel_runs_agree`).
- Tuning never changes how a block ends: runs under one policy that nobody cancels and no database or
  commit error stops all succeed, or all fail at the same transaction, with equal outcomes and
  states, also when a parallel run is stopped early and replayed
  (`ending::law_run_ends_as_sequential_execution`, `ending::law_runs_end_alike`).
- State and outcomes always describe the same prefix of the block
  (`prefix::law_commit_keeps_the_prefix`, `prefix::law_recovery_keeps_the_prefix`).
- A notification is never lost between checking a condition and going to sleep
  (`wait::law_no_lost_wakeup`).
- Identical cold reads are loaded once, whatever the order in which workers ask
  (`concurrent_db::law_one_load_serves_every_call`).
- A commit reads back as the EVM output says, and leaves every other account alone
  (`parallel_state::law_commit_reads_back`, `parallel_state::law_commit_is_local`).
- Every account and slot of a commit reaches the block access list, and a value restored under one
  index leaves no trace in it (`access_list::law_every_access_is_listed`,
  `access_list::law_restored_value_leaves_no_trace`).
- Equal outputs committed under equal indices give equal block access lists
  (`parallel_state::law_equal_commits_give_equal_access_lists`), and a run moves the index by what its
  outcomes say (`block_index::law_run_moves_the_index`).
- A merge that is asked for reverts keeps the values from before it
  (`parallel_state::law_reverts_know_the_values_before`).
- The dependency graph stays sound and hands out the earliest ready transaction
  (`tx_dependency`, `dependency_update`).
- Role budgets are granted in the order of the requests and never exceeded
  (`budget::law_budget_histories_are_sound`).

What comes from outside crates is stated at the functions that call them, with the name of the
outside function in the doc comment.
