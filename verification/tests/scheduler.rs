use ahash::{AHashMap, AHashSet};
use grevm::commit::{CommitOutcome, CommitStep};
use grevm::config::{
    EnvironmentSettings, ExecutionProfile, GrevmConfig, GrevmConfigError,
    InvalidTransactionPolicy, SchedulerTuning,
};
use grevm::control::SchedulerExecutionError;
use grevm::delegated_safety::DelegatedSafetyConfig;
use grevm::execution_resources::{ExecutionAllocation, ExecutionResources};
use grevm::fallback::reject_nonce_overflow;
use grevm::finality::FinalityStep;
use grevm::metrics::Measurement;
use grevm::model::{
    AbortReason, Assignment, DependencyUpdate, ExecutionAttempt, LocationId, ReadVersion, Task,
    TransactionStatus, TxVersion,
};
use grevm::outcome::{GrevmError, TxExecutionOutcome};
use grevm::primitives::{account_key, slot_key, Key};
use grevm::scheduler::Scheduler;
use grevm::test_utils::runtime_config_with_policies;
use grevm::tx_dependency::TxDependency;
use grevm::validation::NextStep;
use grevm::wait::{WaitAction, PARKED};
use revm_context::result::{
    EVMError, ExecutionResult, InvalidTransaction, Output, ResultGas, SuccessReason,
};
use revm_primitives::Bytes;
use std::cell::{Cell, RefCell};
use std::collections::{HashMap, VecDeque};
use std::convert::Infallible;

type Writes = Vec<(Key, u64)>;
type State = HashMap<Key, u64>;
type Toy = Scheduler<State, Writes, Infallible>;

fn key(number: u64) -> Key {
    let mut slot = [0; 32];
    slot[24..].copy_from_slice(&number.to_be_bytes());
    slot_key([7; 20], slot)
}

fn tuned(workers: usize) -> GrevmConfig {
    GrevmConfig::new(
        SchedulerTuning {
            concurrency_level: workers,
            force_sequential: false,
            min_parallel_txs: 0,
        },
        ExecutionProfile::ethereum_block(),
    )
}

fn success() -> ExecutionResult {
    ExecutionResult::Success {
        reason: SuccessReason::Stop,
        gas: ResultGas::default(),
        logs: Vec::new(),
        output: Output::Call(Bytes::new()),
    }
}

/// A transaction that writes a mix of what it reads.
#[derive(Clone)]
struct ToyTx {
    reads: Vec<u64>,
    writes: Vec<u64>,
    /// Executes only on the committed state, as a transaction that reads the beneficiary does.
    needs_origin: bool,
    /// Fails unless it executes on the committed state.
    fails_early: bool,
}

impl ToyTx {
    fn outputs(&self, txid: usize, values: &[u64]) -> Writes {
        let mut sum = txid as u64 + 1;
        for value in values {
            sum = sum.wrapping_mul(31).wrapping_add(*value);
        }
        self.writes.iter().map(|&number| (key(number), sum ^ number)).collect()
    }
}

/// A small linear congruential generator.
struct Dice(u64);

impl Dice {
    fn roll(&mut self, sides: u64) -> u64 {
        self.0 = self.0.wrapping_mul(6364136223846793005).wrapping_add(1442695040888963407);
        (self.0 >> 33) % sides
    }
}

fn random_block(dice: &mut Dice, size: usize, keys: u64) -> Vec<ToyTx> {
    (0..size)
        .map(|_| {
            let pick = |dice: &mut Dice| -> Vec<u64> {
                let count = dice.roll(3);
                let mut picked: Vec<u64> = (0..count).map(|_| dice.roll(keys)).collect();
                picked.sort_unstable();
                picked.dedup();
                picked
            };
            ToyTx {
                reads: pick(dice),
                writes: pick(dice),
                needs_origin: dice.roll(8) == 0,
                fails_early: dice.roll(8) == 0,
            }
        })
        .collect()
}

fn execute_in_order(block: &[ToyTx]) -> (HashMap<Key, u64>, Vec<Writes>) {
    let mut state = HashMap::new();
    let mut outputs = Vec::new();
    for (txid, tx) in block.iter().enumerate() {
        let values: Vec<u64> =
            tx.reads.iter().map(|&number| *state.get(&key(number)).unwrap_or(&0)).collect();
        let writes = tx.outputs(txid, &values);
        for (key, value) in &writes {
            state.insert(*key, *value);
        }
        outputs.push(writes);
    }
    (state, outputs)
}

/// What a worker of the simulation is doing.
enum Worker {
    Idle,
    Tasked(Task),
    Executing(TxVersion, usize, ExecutionAttempt<Writes, Infallible>),
}

struct Simulation {
    block: Vec<ToyTx>,
    scheduler: Toy,
    graph: RefCell<TxDependency>,
    ready: RefCell<VecDeque<usize>>,
    committed: Cell<usize>,
    values: HashMap<(LocationId, usize, usize), u64>,
    outputs: Vec<Writes>,
}

impl Simulation {
    fn new(block: Vec<ToyTx>, workers: usize) -> Self {
        let size = block.len();
        Simulation {
            scheduler: Scheduler::new_with_config(size, State::new(), tuned(workers)),
            graph: RefCell::new(TxDependency::new(size)),
            ready: RefCell::new(VecDeque::new()),
            committed: Cell::new(0),
            values: HashMap::new(),
            outputs: Vec::new(),
            block,
        }
    }

    fn attempt(
        &mut self,
        version: TxVersion,
        commit_idx: usize,
    ) -> ExecutionAttempt<Writes, Infallible> {
        let tx = self.block[version.txid].clone();
        let on_committed_state = commit_idx == version.txid;
        if tx.fails_early && !on_committed_state {
            return ExecutionAttempt::Failed {
                error: EVMError::Custom("speculative failure".to_owned()),
            };
        }
        let mut read_set: AHashMap<LocationId, ReadVersion> = AHashMap::new();
        let mut read_estimate = false;
        let mut values = Vec::new();
        for &number in &tx.reads {
            let location = self.scheduler.locate(key(number));
            match self.scheduler.latest_write(location, version.txid) {
                Some((writer, entry)) => {
                    read_estimate |= entry.estimate;
                    let seen = TxVersion::new(writer, entry.incarnation);
                    read_set.insert(location, ReadVersion::MvMemory(seen));
                    values.push(self.values[&(location, writer, entry.incarnation)]);
                }
                None => {
                    read_set.insert(location, ReadVersion::Storage);
                    values.push(0);
                }
            }
        }
        let output = tx.outputs(version.txid, &values);
        let mut write_set = AHashSet::new();
        for (key, value) in &output {
            let location = self.scheduler.locate(*key);
            self.values.insert((location, version.txid, version.incarnation), *value);
            write_set.insert(location);
        }
        ExecutionAttempt::Done {
            read_accurate_origin: !tx.needs_origin || on_committed_state,
            read_estimate,
            read_set,
            write_set,
            output,
        }
    }

    fn step_worker(&mut self, worker: Worker) -> Worker {
        let Simulation { scheduler, graph, ready, committed, .. } = self;
        let tell = |update: Option<DependencyUpdate>| {
            if let Some(update) = update {
                graph.borrow_mut().update(update, committed.get());
            }
        };
        assert!(scheduler.has_headroom());
        match worker {
            Worker::Idle => {
                let size = scheduler.block_size();
                let finality_idx = scheduler.context().finality_idx();
                let take_ready = || {
                    let mut ready = ready.borrow_mut();
                    if ready.is_empty() {
                        ready.extend(graph.borrow_mut().next(finality_idx));
                    }
                    ready.pop_front()
                };
                match scheduler.next(size, take_ready) {
                    NextStep::Work(task) => Worker::Tasked(task),
                    NextStep::Skipped(update) => {
                        tell(Some(update));
                        Worker::Idle
                    }
                    NextStep::Retry | NextStep::Finished => Worker::Idle,
                }
            }
            Worker::Tasked(Task::Validation(version)) => {
                tell(scheduler.validate(version));
                Worker::Idle
            }
            Worker::Tasked(Task::Execution(version)) => {
                match scheduler.begin_execution(version) {
                    Some(commit_idx) => {
                        let attempt = self.attempt(version, commit_idx);
                        Worker::Executing(version, commit_idx, attempt)
                    }
                    None => Worker::Idle,
                }
            }
            Worker::Executing(version, commit_idx, attempt) => {
                assert!(scheduler.is_executing(&version));
                assert!(scheduler.is_located(&attempt));
                let assignment = scheduler.finish_execution(version, commit_idx, attempt, |update| {
                    tell(Some(update));
                    None
                });
                tell(assignment.update);
                match assignment.task {
                    Some(task) => Worker::Tasked(task),
                    None => Worker::Idle,
                }
            }
        }
    }

    fn step_commit(&mut self) {
        let Simulation { scheduler, graph, committed, outputs, .. } = self;
        if let CommitStep::Commit { txid, output } = scheduler.async_commit() {
            outputs.push(output.clone());
            committed.set(txid + 1);
            if let Some(update) = scheduler.finish_commit(txid, output, commit_writes) {
                graph.borrow_mut().update(update, txid + 1);
            }
            scheduler.record_commit_time(5);
        }
    }
}

fn committed() -> TxExecutionOutcome {
    TxExecutionOutcome::Executed(success())
}

fn commit_writes(_: usize, output: Writes, mut state: State) -> (CommitOutcome<Infallible>, State) {
    for (key, value) in output {
        state.insert(key, value);
    }
    (CommitOutcome::Committed { outcome: committed() }, state)
}

fn simulate(seed: u64, size: usize, keys: u64, workers: usize) -> Simulation {
    let mut dice = Dice(seed);
    let block = random_block(&mut dice, size, keys);
    let (state, outputs) = execute_in_order(&block);
    let mut simulation = Simulation::new(block, workers);
    simulation.scheduler.run_once().ok().unwrap();
    let mut crew: Vec<Worker> = (0..workers).map(|_| Worker::Idle).collect();
    let mut rounds = 0;
    while simulation.scheduler.context().committed_idx() < size {
        rounds += 1;
        assert!(rounds < 200_000, "the simulation makes no progress");
        assert!(!simulation.scheduler.is_aborted());
        match dice.roll(workers as u64 + 2) as usize {
            choice if choice < workers => {
                let worker = std::mem::replace(&mut crew[choice], Worker::Idle);
                crew[choice] = simulation.step_worker(worker);
            }
            choice if choice == workers => {
                simulation.scheduler.async_finality();
            }
            _ => simulation.step_commit(),
        }
    }
    assert_eq!(simulation.outputs, outputs);
    assert_eq!(*simulation.scheduler.state(), state);
    assert_eq!(simulation.scheduler.outcomes().len(), size);
    simulation
}

#[test]
fn speculative_execution_matches_block_order() {
    for seed in 0..40 {
        simulate(seed, 24, 5, 4);
    }
}

#[test]
fn speculative_execution_matches_block_order_without_conflicts() {
    for seed in 100..110 {
        simulate(seed, 30, 10_000, 3);
    }
}

#[test]
fn speculative_execution_matches_block_order_under_heavy_conflicts() {
    for seed in 200..220 {
        simulate(seed, 20, 1, 6);
    }
}

#[test]
fn one_worker_executes_in_block_order() {
    let simulation = simulate(7, 10, 3, 1);
    let metrics = simulation.scheduler.metrics();
    assert_eq!(metrics.total_tx_cnt.get(), 10);
    assert_eq!(metrics.commit_time.get(), 50);
    assert!(metrics.execution_cnt.get() >= 10);
}

#[test]
fn measurements_are_reported_after_a_run() {
    let mut simulation = simulate(11, 12, 4, 3);
    simulation.scheduler.record_execution_time(700);
    let samples = simulation.scheduler.finish_run(900);
    assert!(samples.contains(&(Measurement::TotalTxCnt, 12)));
    assert!(samples.contains(&(Measurement::ExecutionTime, 700)));
    assert!(samples.contains(&(Measurement::TotalTime, 900)));
    assert!(samples.contains(&(Measurement::CommitTime, 60)));
}

fn succeed(_: usize, state: State) -> (Result<ExecutionResult, EVMError<Infallible>>, State) {
    (Ok(success()), state)
}

fn ignore(_: DependencyUpdate) -> Option<usize> {
    None
}

fn started(size: usize) -> Toy {
    let mut scheduler = Scheduler::new_with_config(size, State::new(), tuned(2));
    scheduler.run_once().ok().unwrap();
    scheduler
}

fn done(writes: &[LocationId]) -> ExecutionAttempt<Writes, Infallible> {
    ExecutionAttempt::Done {
        read_accurate_origin: true,
        read_estimate: false,
        read_set: AHashMap::new(),
        write_set: writes.iter().copied().collect(),
        output: Vec::new(),
    }
}

fn start(scheduler: &mut Toy, txid: usize) -> TxVersion {
    match scheduler.execution_task(txid) {
        Assignment { task: Some(Task::Execution(version)), update: None } => version,
        _ => panic!("the transaction can be started"),
    }
}

#[test]
fn a_transaction_passes_through_every_status() {
    let mut scheduler = started(1);
    assert_eq!(scheduler.tx_state(0).status, TransactionStatus::Initial);
    let version = start(&mut scheduler, 0);
    assert_eq!(version, TxVersion::new(0, 1));
    assert_eq!(scheduler.tx_state(0).status, TransactionStatus::Executing);
    assert_eq!(
        scheduler.execution_task(0),
        Assignment { task: None, update: Some(DependencyUpdate::Skip(0)) }
    );
    assert_eq!(scheduler.metrics().useless_dependent_update.get(), 1);

    let told = Cell::new(None);
    let assignment = scheduler.execute_task(|_| done(&[]), version, |update| {
        told.set(Some(update));
        None
    });
    assert_eq!(told.get(), Some(DependencyUpdate::Release(0)));
    assert_eq!(assignment, Assignment { task: None, update: None });
    assert_eq!(scheduler.tx_state(0).status, TransactionStatus::Executed);
    assert!(scheduler.finality_blocked());

    let NextStep::Work(Task::Validation(version)) = scheduler.next(1, || None) else {
        panic!("the transaction has to be validated")
    };
    assert_eq!(scheduler.tx_state(0).status, TransactionStatus::Validating);
    assert_eq!(scheduler.validate(version), None);
    assert_eq!(scheduler.tx_state(0).status, TransactionStatus::Unconfirmed);
    assert_eq!(
        scheduler.next(1, || Some(0)),
        NextStep::Skipped(DependencyUpdate::Skip(0))
    );

    assert!(scheduler.commit_blocked());
    assert_eq!(
        scheduler.async_finality(),
        FinalityStep::Progressed { distances: Vec::new() }
    );
    assert_eq!(scheduler.tx_state(0).status, TransactionStatus::Finality);
    assert_eq!(scheduler.async_finality(), FinalityStep::Done);
    assert_eq!(scheduler.next(1, || None), NextStep::Finished);
    assert!(!scheduler.commit_blocked());
    assert_eq!(scheduler.async_commit(), CommitStep::Commit { txid: 0, output: Vec::new() });
    assert_eq!(
        scheduler.finish_commit(0, Vec::new(), commit_writes),
        Some(DependencyUpdate::Commit(0))
    );
    assert_eq!(scheduler.async_commit(), CommitStep::Done);
}

#[test]
fn workers_yield_once_nothing_is_left_to_hand_out() {
    let mut scheduler = started(1);
    assert!(!scheduler.should_yield(0));
    assert_eq!(scheduler.context().execution_frontier(), 0);
    assert_eq!(scheduler.context().commit_cursor().get(), 0);
    let version = start(&mut scheduler, 0);
    scheduler.execute_task(|_| done(&[]), version, ignore);
    assert!(!scheduler.should_yield(1));
    if let NextStep::Work(Task::Validation(version)) = scheduler.next(1, || None) {
        scheduler.validate(version);
    }
    assert!(scheduler.should_yield(1));
    scheduler.async_finality();
    scheduler.async_commit();
    scheduler.finish_commit(0, Vec::new(), commit_writes);
    assert_eq!(scheduler.context().commit_cursor().get(), 1);
}

#[test]
fn differential_tests_select_their_policies() {
    let config = runtime_config_with_policies(
        SchedulerTuning { concurrency_level: 4, force_sequential: true, min_parallel_txs: 9 },
        InvalidTransactionPolicy::Omit,
        DelegatedSafetyConfig::reserve_only(),
    );
    assert_eq!(config.concurrency_level, 4);
    assert!(config.force_sequential);
    assert_eq!(config.min_parallel_txs, 9);
    assert_eq!(config.invalid_transaction_policy(), InvalidTransactionPolicy::Omit);
    assert!(config.delegated_safety().reserve_delegated_balance);
    assert!(!config.delegated_safety().forbid_delegated_create);
}

#[test]
fn a_stale_read_fails_validation_and_names_its_writer() {
    let mut scheduler = started(2);
    let location = scheduler.locate(account_key([1; 20]));
    // The second transaction reads the location before the first one writes it.
    let second = start(&mut scheduler, 1);
    let read_set: AHashMap<LocationId, ReadVersion> =
        [(location, ReadVersion::Storage)].into_iter().collect();
    scheduler.execute_task(
        |_| ExecutionAttempt::Done {
            read_accurate_origin: true,
            read_estimate: false,
            read_set,
            write_set: AHashSet::new(),
            output: Vec::new(),
        },
        second,
        ignore,
    );
    let first = start(&mut scheduler, 0);
    scheduler.execute_task(|_| done(&[location]), first, ignore);
    assert_eq!(scheduler.latest_write(location, 1).unwrap().0, 0);

    let NextStep::Work(Task::Validation(first)) = scheduler.next(2, || None) else {
        panic!("the first transaction has to be validated")
    };
    scheduler.validate(first);
    let NextStep::Work(Task::Validation(second)) = scheduler.next(2, || None) else {
        panic!("the second transaction has to be validated")
    };
    assert_eq!(scheduler.validate(second), Some(DependencyUpdate::Add(1, Some(0))));
    assert_eq!(scheduler.tx_state(1).status, TransactionStatus::Conflict);
    assert_eq!(scheduler.metrics().conflict_by_version.get(), 1);
    assert!(scheduler.tx_result(1).is_some());

    // The next attempt reads from the first transaction and waits for it.
    let second = start(&mut scheduler, 1);
    assert_eq!(second.incarnation, 2);
    let read_set: AHashMap<LocationId, ReadVersion> =
        [(location, ReadVersion::MvMemory(first))].into_iter().collect();
    assert_eq!(scheduler.generate_dependent_tx(1, &read_set), Some(0));
}

#[test]
fn an_error_at_the_head_of_the_block_stops_the_run() {
    for invalid in [true, false] {
        let mut scheduler = started(2);
        let version = start(&mut scheduler, 0);
        let error = || -> EVMError<Infallible> {
            if invalid {
                EVMError::Transaction(InvalidTransaction::NonceOverflowInTransaction)
            } else {
                EVMError::Custom("fatal".to_owned())
            }
        };
        scheduler.execute_task(
            |_| ExecutionAttempt::Failed { error: error() },
            version,
            ignore,
        );
        assert!(scheduler.is_aborted());
        let replayed = Cell::new(0);
        let transact = |_: usize, state: State| {
            replayed.set(replayed.get() + 1);
            (Ok(success()), state)
        };
        let result = scheduler.post_execute(0, &transact, &|| false);
        if invalid {
            // The block is executed sequentially instead.
            assert!(result.is_ok());
            assert_eq!(replayed.get(), 2);
            assert_eq!(scheduler.outcomes().len(), 2);
        } else {
            // The cause stays recorded, so asking again gives the same error.
            for result in [result, scheduler.post_execute(0, &transact, &|| false)] {
                let error = result.err().unwrap();
                assert_eq!(error.txid, 0);
                assert!(matches!(error.error, EVMError::Custom(message) if message == "fatal"));
            }
            assert!(scheduler.tx_result(0).is_some());
            assert!(matches!(scheduler.abort_reason(), Some(AbortReason::FatalEvmError(0))));
            assert_eq!(replayed.get(), 0);
        }
    }
}

#[test]
fn a_failing_transaction_ends_every_run_alike() {
    let fatal = || EVMError::<Infallible>::Custom("fatal".to_owned());
    let transact = |txid: usize, state: State| {
        let result = if txid == 1 { Err(fatal()) } else { Ok(success()) };
        (result, state)
    };
    let mut parallel = started(3);
    let version = start(&mut parallel, 0);
    parallel.execute_task(|_| done(&[]), version, ignore);
    if let NextStep::Work(Task::Validation(version)) = parallel.next(1, || None) {
        parallel.validate(version);
    }
    parallel.async_finality();
    assert!(matches!(parallel.async_commit(), CommitStep::Commit { txid: 0, .. }));
    parallel.finish_commit(0, Vec::new(), commit_writes);
    let version = start(&mut parallel, 1);
    parallel.execute_task(|_| ExecutionAttempt::Failed { error: fatal() }, version, ignore);
    assert_eq!(parallel.async_commit(), CommitStep::Done);
    let parallel_error = parallel.post_execute(1, &transact, &|| false).err().unwrap();

    let mut sequential: Toy = Scheduler::new_with_config(3, State::new(), tuned(2));
    let error = sequential.fallback_sequential(&transact, &|| false).err().unwrap();

    for error in [error, parallel_error] {
        assert_eq!(error.txid, 1);
        assert!(matches!(error.error, EVMError::Custom(message) if message == "fatal"));
    }
    let (outcomes, state) = parallel.take_result_and_state();
    let (expected_outcomes, expected_state) = sequential.take_result_and_state();
    assert_eq!(format!("{outcomes:?}"), format!("{expected_outcomes:?}"));
    assert_eq!(state, expected_state);
    assert_eq!(outcomes.len(), 1);
}

#[test]
fn a_commit_error_is_returned_and_a_refused_commit_is_replayed() {
    let failed = || GrevmError {
        txid: 0,
        error: EVMError::<Infallible>::Custom("disk full".to_owned()),
    };
    for refused in [true, false] {
        let mut scheduler = started(1);
        let version = start(&mut scheduler, 0);
        scheduler.execute_task(|_| done(&[]), version, ignore);
        if let NextStep::Work(Task::Validation(version)) = scheduler.next(1, || None) {
            scheduler.validate(version);
        }
        scheduler.async_finality();
        assert!(matches!(scheduler.async_commit(), CommitStep::Commit { txid: 0, .. }));
        let outcome = if refused {
            CommitOutcome::Fallback
        } else {
            CommitOutcome::Failed { error: failed() }
        };
        scheduler.finish_commit(0, Vec::new(), |_, _, state| (outcome, state));
        assert_eq!(scheduler.context().committed_idx(), 0);
        let result = scheduler.post_execute(0, &succeed, &|| false);
        assert_eq!(result.is_ok(), refused);
        assert_eq!(scheduler.outcomes().len(), usize::from(refused));
    }
}

#[test]
fn a_scheduler_executes_only_once() {
    let mut scheduler = started(3);
    assert!(scheduler.is_started());
    let error = scheduler.run_once().err().unwrap();
    assert_eq!(error.txid, 0);
    assert!(matches!(
        error.error,
        EVMError::Custom(message)
            if message == "a Scheduler can execute only once; create a new Scheduler for each block"
    ));
    assert!(scheduler.fallback_sequential(&succeed, &|| false).is_err());
    assert!(scheduler.execute(acquire(16)).is_err());
    assert!(scheduler.parallel_execute(Some(2), acquire(16)).is_err());
    assert!(scheduler.execute_with_cancellation(|| true, |_| (None, 0)).is_err());
    assert!(!scheduler.is_aborted());
    assert!(scheduler.outcomes().is_empty());
    // Every entry point begins the only run.
    let mut scheduler: Toy = Scheduler::new_with_config(3, State::new(), tuned(2));
    assert!(scheduler.execute(acquire(16)).is_ok());
    assert!(scheduler.execute(acquire(16)).is_err());
    assert_eq!(scheduler.metrics().total_tx_cnt.get(), 3);
}

#[test]
fn the_first_abort_reason_wins_and_wakes_every_role() {
    let mut scheduler = started(2);
    scheduler.finality_wait().register_current_thread();
    scheduler.commit_wait().register_current_thread();
    scheduler.finality_wait().arm();
    assert_eq!(scheduler.finality_wait().second_check(true), WaitAction::Park);
    scheduler.commit_wait().arm();
    assert_eq!(scheduler.commit_wait().second_check(true), WaitAction::Park);
    assert_eq!(scheduler.commit_wait().state.get(), PARKED);

    scheduler.abort(AbortReason::Cancelled);
    scheduler.abort(AbortReason::FallbackSequential);
    let wakes = scheduler.take_wakes();
    assert!(wakes.finality);
    assert!(wakes.commit);
    let again = scheduler.take_wakes();
    assert!(!again.finality && !again.commit);

    let error = scheduler.post_execute(0, &succeed, &|| false).err().unwrap();
    assert!(error.is_cancelled());
}

#[test]
fn a_stop_without_a_cause_has_the_block_replayed() {
    let mut scheduler = started(2);
    scheduler.cancel();
    assert!(scheduler.is_aborted());
    assert_eq!(scheduler.next(2, || None), NextStep::Finished);
    assert!(scheduler.post_execute(0, &succeed, &|| false).is_ok());
    assert_eq!(scheduler.outcomes().len(), 2);
}

#[test]
fn interruptions_and_failures_are_told_apart() {
    let mut scheduler = started(1);
    assert!(scheduler.execute_with_typed_cancellation(Ok(())).is_ok());
    let fatal = || GrevmError {
        txid: 0,
        error: EVMError::<Infallible>::Custom("fatal".to_owned()),
    };
    assert!(matches!(
        scheduler.execute_with_typed_cancellation(Err(GrevmError::cancelled(0))),
        Err(SchedulerExecutionError::Failed(_))
    ));
    assert!(scheduler.poll_cancellation(true));
    assert!(scheduler.is_interrupted());
    assert!(matches!(
        scheduler.execute_with_typed_cancellation(Err(GrevmError::cancelled(0))),
        Err(SchedulerExecutionError::Interrupted)
    ));
    assert!(matches!(
        scheduler.execute_with_typed_cancellation(Err(fatal())),
        Err(SchedulerExecutionError::Failed(_))
    ));
    assert!(scheduler.should_abort(|| panic!("nobody is asked any more")));
}

#[test]
fn a_prefix_that_does_not_match_the_outcomes_is_reported() {
    let mut scheduler = started(4);
    let error = scheduler
        .replay_uncommitted_suffix(2, &succeed, &|| false)
        .err()
        .unwrap();
    assert_eq!(error.txid, 2);
    assert!(matches!(
        error.error,
        EVMError::Custom(message)
            if message == "committed prefix mismatch: boundary=2, outcomes=0, block_size=4"
    ));
    // With two transactions committed, the rest is replayed on the state that they left.
    for txid in 0..2 {
        scheduler.finish_commit(txid, vec![(key(txid as u64), 7)], commit_writes);
    }
    let replay = |txid: usize, mut state: State| {
        assert_eq!(state.len(), txid);
        state.insert(key(txid as u64), 8);
        (Ok(success()), state)
    };
    assert!(scheduler.replay_uncommitted_suffix(2, &replay, &|| false).is_ok());
    let (outcomes, state) = scheduler.take_result_and_state();
    assert_eq!(outcomes.len(), 4);
    assert_eq!(state.len(), 4);
    assert_eq!(state[&key(1)], 7);
    assert_eq!(state[&key(3)], 8);
}

#[test]
fn state_and_outcomes_describe_the_same_prefix() {
    // Nothing is executed yet.
    let scheduler: Toy = Scheduler::new_with_config(3, State::new(), tuned(2));
    let (outcomes, state) = scheduler.take_result_and_state();
    assert!(outcomes.is_empty() && state.is_empty());
    // The transaction at `stop` fails, or the caller asks to stop before it.
    for fails in [true, false] {
        for stop in 0..3 {
            let mut scheduler = Scheduler::new_with_config(3, State::new(), tuned(2));
            let executed = Cell::new(0);
            let transact = |txid: usize, mut state: State| {
                if fails && txid == stop {
                    return (Err(EVMError::Custom("fatal".to_owned())), state);
                }
                state.insert(key(txid as u64), 1);
                executed.set(txid + 1);
                (Ok(success()), state)
            };
            let stopped = |scheduler: &mut Toy| {
                scheduler.fallback_sequential(&transact, &|| !fails && executed.get() == stop)
            };
            let error = stopped(&mut scheduler).err().unwrap();
            assert_eq!(error.txid, stop);
            assert_eq!(error.is_cancelled(), !fails);
            let (outcomes, state) = scheduler.take_result_and_state();
            assert_eq!(outcomes.len(), stop);
            assert_eq!(state.len(), stop);
        }
    }
}

/// Acquires roles from a budget that nobody else uses.
fn acquire(capacity: usize) -> impl FnOnce(Option<usize>) -> (ExecutionAllocation, usize) {
    move |desired| (ExecutionResources::dedicated(capacity).acquire(desired), 40)
}

fn workers(plan: Result<ExecutionAllocation, GrevmError<Infallible>>) -> Option<usize> {
    match plan.ok().unwrap() {
        ExecutionAllocation::Sequential { .. } => None,
        ExecutionAllocation::Parallel { workers, .. } => Some(workers),
    }
}

#[test]
fn small_blocks_are_executed_sequentially() {
    let mut config = tuned(3);
    config.min_parallel_txs = 5;
    let fresh = |size: usize, config: GrevmConfig| -> Toy {
        Scheduler::new_with_config(size, State::new(), config)
    };
    assert_eq!(workers(fresh(4, config).execute(acquire(16))), None);
    assert_eq!(workers(fresh(5, config).execute(acquire(16))), Some(3));
    assert_eq!(workers(fresh(5, config).parallel_execute(Some(9), acquire(16))), Some(9));
    config.force_sequential = true;
    assert_eq!(workers(fresh(5, config).parallel_execute(Some(9), acquire(16))), None);
    config.concurrency_level = 0;
    let refused: Result<Toy, GrevmConfigError> =
        Scheduler::try_new_with_runtime_config(5, State::new(), config);
    assert!(matches!(refused, Err(GrevmConfigError::ZeroConcurrency)));
}

#[test]
fn fewer_than_two_workers_select_the_sequential_path() {
    // Requested workers, capacity; granted workers, downgraded.
    for (level, capacity, granted, downgraded) in
        [(1, 16, None, 1), (8, 3, None, 1), (8, 4, Some(2), 0), (2, 16, Some(2), 0)]
    {
        let mut scheduler: Toy = Scheduler::new_with_config(5, State::new(), tuned(level));
        assert_eq!(scheduler.desired_workers(None), Some(level));
        assert_eq!(workers(scheduler.execute(acquire(capacity))), granted);
        let samples = scheduler.finish_run(900);
        assert!(samples.contains(&(Measurement::ResourceWaitTime, 40)));
        assert!(samples.contains(&(Measurement::ParallelWorkerCnt, granted.unwrap_or(0))));
        assert!(samples.contains(&(Measurement::ResourceSequentialFallback, downgraded)));
        assert_eq!(samples.len(), 19);
    }
    let mut config = tuned(8);
    config.force_sequential = true;
    let mut scheduler: Toy = Scheduler::new_with_config(5, State::new(), config);
    assert_eq!(workers(scheduler.execute(acquire(16))), None);
    assert!(scheduler.finish_run(1).contains(&(Measurement::ResourceSequentialFallback, 0)));
}

#[test]
fn a_run_can_be_stopped_before_any_work() {
    let nobody = |_: Option<usize>| -> (Option<ExecutionAllocation>, usize) {
        panic!("no roles are needed")
    };
    let mut scheduler: Toy = Scheduler::new_with_config(5, State::new(), tuned(2));
    assert_eq!(scheduler.execute_with_cancellation(|| true, nobody).ok().unwrap(), None);
    assert!(scheduler.is_interrupted());
    assert!(scheduler.post_execute(0, &succeed, &|| false).err().unwrap().is_cancelled());
    // The wait for roles is interrupted.
    let mut scheduler: Toy = Scheduler::new_with_config(5, State::new(), tuned(2));
    assert_eq!(scheduler.execute_with_cancellation(|| false, |_| (None, 30)).ok().unwrap(), None);
    assert!(scheduler.is_interrupted());
    assert_eq!(scheduler.metrics().resource_wait_time.get(), 30);
}

#[test]
fn environment_settings_configure_a_scheduler() {
    let settings = EnvironmentSettings {
        concurrent_level: Some("6".to_owned()),
        fallback_sequential: Some("true".to_owned()),
        min_parallel_txs: Some("not a number".to_owned()),
    };
    let scheduler: Toy = Scheduler::new(3, State::new(), &settings, Some(2));
    assert_eq!(scheduler.config().concurrency_level, 6);
    assert!(scheduler.config().force_sequential);
    assert_eq!(scheduler.config().min_parallel_txs, 64);
    let scheduler: Toy = Scheduler::new_with_delegated_safety(
        3,
        State::new(),
        &settings,
        Some(2),
        DelegatedSafetyConfig::enabled(),
    );
    assert!(scheduler.config().delegated_safety().forbid_delegated_create);
}

#[test]
fn nonce_overflow_is_rejected_only_for_an_exhausted_account() {
    let offline = || -> Result<Option<u64>, &'static str> { panic!("nobody is asked") };
    assert!(reject_nonce_overflow(true, u64::MAX, offline).is_ok());
    assert!(reject_nonce_overflow(false, 5, offline).is_ok());
    let account = |nonce: Option<u64>| move || -> Result<Option<u64>, &'static str> { Ok(nonce) };
    assert!(reject_nonce_overflow(false, u64::MAX, account(None)).is_ok());
    assert!(reject_nonce_overflow(false, u64::MAX, account(Some(3))).is_ok());
    assert!(matches!(
        reject_nonce_overflow(false, u64::MAX, account(Some(u64::MAX))),
        Err(EVMError::Transaction(InvalidTransaction::NonceOverflowInTransaction))
    ));
    assert!(matches!(
        reject_nonce_overflow(false, u64::MAX, || Err("offline")),
        Err(EVMError::Database("offline"))
    ));
}
