use ahash::{AHashMap, AHashSet};
use grevm::account::{Account, AccountInfo, StorageSlot};
use grevm::block_index::{settle_block_index, settle_result_index};
use grevm::config::{
    GrevmConfig, GrevmConfigError, InvalidTransactionPolicy, SchedulerTuning,
};
use grevm::commit::{CommitOutcome, CommitStep};
use grevm::control::SchedulerExecutionError;
use grevm::delegated_safety::DelegatedSafetyConfig;
use grevm::execution_resources::{ExecutionAllocation, ExecutionResources};
use grevm::fallback::{advances_block_index, classify};
use grevm::model::{DependencyUpdate, ExecutionAttempt, LocationId, ReadVersion, Task, TxVersion};
use grevm::outcome::{GrevmError, TxExecutionOutcome};
use grevm::parallel_state::ParallelState;
use grevm::primitives;
use grevm::primitives::{account_key, slot_key, Key};
use grevm::scheduler::Scheduler;
use grevm::session::{BatchExecutionResult, BatchRun, ExecutionSession};
use grevm::test_utils::runtime_config_with_policies;
use grevm::tx_dependency::TxDependency;
use grevm::validation::NextStep;
use revm::{Context, DatabaseRef, ExecuteEvm, MainBuilder, MainContext};
use revm_context::result::{EVMError, ExecutionResult, InvalidTransaction, SuccessReason};
use revm_context::result::{Output, ResultGas};
use revm_context::{CfgEnv, TxEnv};
use revm_database::EmptyDB;
use revm_primitives::{hardfork::SpecId, Address, Bytes, TxKind, B256, U256};
use revm_state::{Bytecode, EvmState};
use std::cell::{Cell, RefCell};
use std::collections::{HashMap, VecDeque};
use std::convert::Infallible;
use std::rc::Rc;

const GAS_LIMIT: u64 = 21_000;

type Hook = Rc<dyn Fn()>;
type State = ParallelState<EmptyDB, Hook>;

fn plain_info(info: revm_state::AccountInfo) -> AccountInfo {
    AccountInfo {
        balance: info.balance.to_be_bytes(),
        nonce: info.nonce,
        code_hash: info.code_hash.0,
        account_id: info.account_id,
        code: info.code,
    }
}

fn revm_info(info: AccountInfo) -> revm_state::AccountInfo {
    revm_state::AccountInfo {
        balance: U256::from_be_bytes(info.balance),
        nonce: info.nonce,
        code_hash: info.code_hash.into(),
        account_id: info.account_id,
        code: info.code,
    }
}

fn plain_changes(state: EvmState) -> Vec<(primitives::Address, Account)> {
    state
        .into_iter()
        .map(|(address, account)| {
            let slots = account.storage.iter().map(|(key, slot)| {
                let slot = StorageSlot::new_changed(
                    slot.original_value.to_be_bytes(),
                    slot.present_value.to_be_bytes(),
                );
                (key.to_be_bytes(), slot)
            });
            let plain = Account {
                info: plain_info(account.info.clone()),
                original_info: plain_info(account.original_info()),
                storage: slots.collect(),
                touched: account.is_touched(),
                created: account.is_created(),
                selfdestructed: account.is_selfdestructed(),
                selfdestructed_locally: account.is_selfdestructed_locally(),
                loaded_as_not_existing: account.is_loaded_as_not_existing(),
            };
            (address.into_array(), plain)
        })
        .collect()
}

/// The state as a database of the EVM.
struct Reads<'a>(&'a RefCell<State>);

impl DatabaseRef for Reads<'_> {
    type Error = Infallible;

    fn basic_ref(&self, address: Address) -> Result<Option<revm_state::AccountInfo>, Infallible> {
        self.0
            .borrow_mut()
            .db_basic(address.into_array(), |database| {
                database.basic_ref(address).map(|info| info.map(plain_info))
            })
            .map(|info| info.map(revm_info))
    }

    fn code_by_hash_ref(&self, code_hash: B256) -> Result<Bytecode, Infallible> {
        self.0
            .borrow_mut()
            .db_code_by_hash(code_hash.0, |database| database.code_by_hash_ref(code_hash))
    }

    fn storage_ref(&self, address: Address, index: U256) -> Result<U256, Infallible> {
        self.0
            .borrow_mut()
            .db_storage(address.into_array(), index.to_be_bytes(), |database| {
                database.storage_ref(address, index).map(|value| value.to_be_bytes())
            })
            .map(U256::from_be_bytes)
    }

    fn block_hash_ref(&self, number: u64) -> Result<B256, Infallible> {
        self.0
            .borrow_mut()
            .db_block_hash(number, |database| database.block_hash_ref(number).map(|hash| hash.0))
            .map(B256::from)
    }
}

type Changes = Vec<(primitives::Address, Account)>;
type SpeculativeOutput = (ExecutionResult, Changes);
type Batch = Scheduler<State, SpeculativeOutput, Infallible>;

fn evm_output<DB: DatabaseRef<Error = Infallible>>(
    database: DB,
    tx: TxEnv,
) -> Result<SpeculativeOutput, EVMError<Infallible>> {
    let mut evm = Context::mainnet()
        .with_ref_db(database)
        .with_cfg(CfgEnv::new_with_spec(SpecId::SHANGHAI))
        .build_mainnet();
    let output = evm.transact(tx)?;
    Ok((output.result, plain_changes(output.state)))
}

fn commit(changes: Changes, mut state: State) -> State {
    let notify = state.commit(changes);
    if notify {
        let hook = state.take_state_hook();
        if let Some(hook) = &hook {
            hook();
        }
        state.set_state_hook(hook);
    }
    state
}

/// Executes and commits one transaction.
fn transact(
    state: State,
    tx: TxEnv,
    policy: InvalidTransactionPolicy,
) -> (Result<ExecutionResult, EVMError<Infallible>>, State) {
    let state = RefCell::new(state);
    let output = evm_output(Reads(&state), tx);
    let state = state.into_inner();
    let (result, mut state) = match output {
        Ok((result, changes)) => (Ok(result), commit(changes, state)),
        Err(error) => (Err(error), state),
    };
    settle_result_index(&mut state, policy, &result);
    (result, state)
}

/// What the incarnations of a batch changed.
type Written = RefCell<HashMap<(usize, usize), Changes>>;

/// What one incarnation sees: the latest earlier writes, and below them the canonical state.
struct Speculation<'a> {
    batch: &'a RefCell<Batch>,
    written: &'a Written,
    txid: usize,
    reads: RefCell<AHashMap<LocationId, ReadVersion>>,
    estimate: Cell<bool>,
}

impl Speculation<'_> {
    /// The account as the latest earlier transaction left it, if one wrote the key.
    fn latest(&self, key: Key, address: Address) -> Option<Account> {
        let location = self.batch.borrow_mut().locate(key);
        let latest = self.batch.borrow().latest_write(location, self.txid);
        let Some((writer, entry)) = latest else {
            self.reads.borrow_mut().insert(location, ReadVersion::Storage);
            return None;
        };
        self.estimate.set(self.estimate.get() || entry.estimate);
        let version = TxVersion::new(writer, entry.incarnation);
        self.reads.borrow_mut().insert(location, ReadVersion::MvMemory(version));
        let written = self.written.borrow();
        let changes = &written[&(writer, entry.incarnation)];
        changes.iter().find(|change| change.0 == address.into_array()).map(|change| Account {
            info: revm_info_copy(&change.1.info),
            original_info: revm_info_copy(&change.1.original_info),
            storage: change.1.storage.clone(),
            ..change.1
        })
    }

    fn below<T>(&self, read: impl FnOnce(Reads<'_>) -> T) -> T {
        let mut batch = self.batch.borrow_mut();
        let placeholder = ParallelState::new(EmptyDB::default(), true, false);
        let state = RefCell::new(std::mem::replace(batch.state_mut(), placeholder));
        let value = read(Reads(&state));
        *batch.state_mut() = state.into_inner();
        value
    }
}

fn revm_info_copy(info: &AccountInfo) -> AccountInfo {
    AccountInfo {
        balance: info.balance,
        nonce: info.nonce,
        code_hash: info.code_hash,
        account_id: info.account_id,
        code: info.code.clone(),
    }
}

impl DatabaseRef for Speculation<'_> {
    type Error = Infallible;

    fn basic_ref(&self, address: Address) -> Result<Option<revm_state::AccountInfo>, Infallible> {
        match self.latest(account_key(address.into_array()), address) {
            Some(account) => {
                let info = revm_info(account.info);
                Ok(if info.is_empty() { None } else { Some(info) })
            }
            None => self.below(|state| state.basic_ref(address)),
        }
    }

    fn code_by_hash_ref(&self, code_hash: B256) -> Result<Bytecode, Infallible> {
        self.below(|state| state.code_by_hash_ref(code_hash))
    }

    fn storage_ref(&self, address: Address, index: U256) -> Result<U256, Infallible> {
        let slot = index.to_be_bytes();
        let account = self.latest(slot_key(address.into_array(), slot), address);
        let value = account
            .and_then(|account| account.storage.into_iter().find(|(key, _)| *key == slot))
            .map(|(_, slot)| U256::from_be_bytes(slot.present_value));
        match value {
            Some(value) => Ok(value),
            None => self.below(|state| state.storage_ref(address, index)),
        }
    }

    fn block_hash_ref(&self, number: u64) -> Result<B256, Infallible> {
        self.below(|state| state.block_hash_ref(number))
    }
}

fn attempt(
    batch: &RefCell<Batch>,
    written: &Written,
    version: TxVersion,
    tx: TxEnv,
) -> ExecutionAttempt<SpeculativeOutput, Infallible> {
    let speculation = Speculation {
        batch,
        written,
        txid: version.txid,
        reads: RefCell::new(AHashMap::new()),
        estimate: Cell::new(false),
    };
    let output = evm_output(&speculation, tx);
    let Speculation { reads, estimate, .. } = speculation;
    let (result, changes) = match output {
        Ok(output) => output,
        Err(error) => return ExecutionAttempt::Failed { error },
    };
    let mut write_set = AHashSet::new();
    for (address, account) in &changes {
        if account.touched {
            write_set.insert(batch.borrow_mut().locate(account_key(*address)));
            for (slot, _) in &account.storage {
                write_set.insert(batch.borrow_mut().locate(slot_key(*address, *slot)));
            }
        }
    }
    let kept = changes
        .iter()
        .map(|(address, account)| {
            let account = Account {
                info: revm_info_copy(&account.info),
                original_info: revm_info_copy(&account.original_info),
                storage: account.storage.clone(),
                ..*account
            };
            (*address, account)
        })
        .collect();
    written.borrow_mut().insert((version.txid, version.incarnation), kept);
    ExecutionAttempt::Done {
        read_accurate_origin: true,
        read_estimate: estimate.get(),
        read_set: reads.into_inner(),
        write_set,
        output: (result, changes),
    }
}

/// Drives every role of a parallel run in turn, on one thread. The last transactions are started
/// first, so that earlier ones invalidate them.
fn speculate(
    batch: &RefCell<Batch>,
    txs: &[TxEnv],
    cancelled: &dyn Fn() -> bool,
    policy: InvalidTransactionPolicy,
) {
    let size = txs.len();
    let written: Written = RefCell::new(HashMap::new());
    let graph = RefCell::new(TxDependency::new(size));
    let ready: RefCell<VecDeque<usize>> = RefCell::new(VecDeque::new());
    let committed = Cell::new(0);
    let tell = |update: Option<DependencyUpdate>| {
        if let Some(update) = update {
            graph.borrow_mut().update(update, committed.get());
        }
    };
    let mut rounds = 0;
    while committed.get() < size {
        rounds += 1;
        assert!(rounds < 10_000, "the batch makes no progress");
        if batch.borrow_mut().should_abort(|| cancelled()) {
            return;
        }
        let finality_idx = batch.borrow().context().finality_idx();
        let take_ready = || {
            let mut ready = ready.borrow_mut();
            if ready.is_empty() {
                ready.extend(graph.borrow_mut().next(finality_idx));
            }
            ready.pop_back()
        };
        let step = batch.borrow_mut().next(size, take_ready);
        let mut task = match step {
            NextStep::Work(task) => Some(task),
            NextStep::Skipped(update) => {
                tell(Some(update));
                None
            }
            NextStep::Retry | NextStep::Finished => None,
        };
        while let Some(current) = task {
            task = match current {
                Task::Validation(version) => {
                    tell(batch.borrow_mut().validate(version));
                    None
                }
                Task::Execution(version) => {
                    let begun = batch.borrow_mut().begin_execution(version);
                    match begun {
                        Some(commit_idx) => {
                            let tx = txs[version.txid].clone();
                            let attempt = attempt(batch, &written, version, tx);
                            let mut batch = batch.borrow_mut();
                            assert!(batch.is_located(&attempt));
                            let assignment =
                                batch.finish_execution(version, commit_idx, attempt, |update| {
                                    tell(Some(update));
                                    None
                                });
                            tell(assignment.update);
                            assignment.task
                        }
                        None => None,
                    }
                }
            };
        }
        batch.borrow_mut().async_finality();
        let step = batch.borrow_mut().async_commit();
        if let CommitStep::Commit { txid, output } = step {
            committed.set(txid + 1);
            let update = batch.borrow_mut().finish_commit(
                txid,
                output,
                |_, (result, changes), state| {
                    let outcome = TxExecutionOutcome::Executed(result);
                    let mut state = commit(changes, state);
                    settle_block_index(&mut state, policy, &outcome);
                    (CommitOutcome::Committed { outcome }, state)
                },
            );
            tell(update);
        }
    }
}

/// Runs one batch the way a scheduler does, on one thread.
fn run(
    txs: &[TxEnv],
    state: State,
    config: GrevmConfig,
    cancelled: &dyn Fn() -> bool,
    expected_workers: Option<usize>,
) -> BatchRun<State, Infallible> {
    let batch = RefCell::new(Batch::new_with_config(txs.len(), state, config));
    let policy = config.invalid_transaction_policy();
    let transact = |txid: usize, state: State| transact(state, txs[txid].clone(), policy);
    let mut budget = ExecutionResources::dedicated(8);
    let plan = batch
        .borrow_mut()
        .execute_with_cancellation(|| cancelled(), |desired| (Some(budget.acquire(desired)), 0));
    let result = match plan.ok().unwrap() {
        Some(ExecutionAllocation::Parallel { workers, .. }) => {
            assert_eq!(Some(workers), expected_workers);
            speculate(&batch, txs, cancelled, policy);
            let mut batch = batch.borrow_mut();
            let committed = batch.context().committed_idx();
            batch.post_execute(committed, &transact, &|| cancelled())
        }
        Some(ExecutionAllocation::Sequential { .. }) => {
            assert_eq!(expected_workers, None);
            batch.borrow_mut().replay_uncommitted_suffix(0, &transact, &|| cancelled())
        }
        None => batch.borrow_mut().post_execute(0, &transact, &|| cancelled()),
    };
    let batch = batch.into_inner();
    assert_eq!(batch.metrics().total_tx_cnt.get(), txs.len());
    let status = batch.execute_with_typed_cancellation(result);
    let (outcomes, state) = batch.take_result_and_state();
    BatchRun { status, outcomes, state }
}

fn sequential_config(policy: InvalidTransactionPolicy) -> GrevmConfig {
    runtime_config_with_policies(
        SchedulerTuning { concurrency_level: 1, force_sequential: true, min_parallel_txs: 0 },
        policy,
        DelegatedSafetyConfig::disabled(),
    )
}

fn parallel_config(policy: InvalidTransactionPolicy) -> GrevmConfig {
    runtime_config_with_policies(
        SchedulerTuning { concurrency_level: 2, force_sequential: false, min_parallel_txs: 0 },
        policy,
        DelegatedSafetyConfig::disabled(),
    )
}

const TWO_WORKERS: Option<usize> = Some(2);

fn transfer(caller: Address, recipient: Address, nonce: u64) -> TxEnv {
    TxEnv {
        caller,
        kind: TxKind::Call(recipient),
        value: U256::from(1),
        gas_limit: GAS_LIMIT,
        nonce,
        ..Default::default()
    }
}

fn session_with_config(config: GrevmConfig) -> ExecutionSession<State> {
    let caller = Address::with_last_byte(1);
    let mut state = ParallelState::new(EmptyDB::default(), true, false).with_bal_builder();
    state.insert_account(
        caller.into_array(),
        AccountInfo { balance: U256::from(1_000_000).to_be_bytes(), ..Default::default() },
    );
    ExecutionSession::new(state, config)
}

fn session(policy: InvalidTransactionPolicy) -> ExecutionSession<State> {
    session_with_config(sequential_config(policy))
}

fn nonce_of(session: &mut ExecutionSession<State>, address: Address) -> u64 {
    let info = session
        .state_mut()
        .db_basic(address.into_array(), |_| -> Result<Option<AccountInfo>, Infallible> {
            panic!("the account is cached")
        });
    info.unwrap().unwrap().nonce
}

fn execute_batch(
    session: &mut ExecutionSession<State>,
    txs: Vec<TxEnv>,
    plan: Option<usize>,
) -> BatchExecutionResult<Infallible> {
    session.execute_batch(txs.len(), |state, config| {
        let output = run(&txs, state, config, &|| false, plan);
        let result = match output.status {
            Ok(()) => Ok(()),
            Err(SchedulerExecutionError::Failed(error)) => Err(error),
            Err(SchedulerExecutionError::Interrupted) => panic!("nobody asked to stop"),
        };
        (result, output.outcomes, output.state)
    })
}

#[test]
fn canonical_state_bal_and_hook_continue_across_batches() {
    let caller = Address::with_last_byte(1);
    let recipient = Address::with_last_byte(2);
    let observed = Rc::new(Cell::new(0));
    let hook_observed = observed.clone();
    let mut session = session_with_config(parallel_config(InvalidTransactionPolicy::Abort));
    session.state_mut().set_state_hook(Some(Rc::new(move || {
        hook_observed.set(hook_observed.get() + 1);
    })));

    let first = execute_batch(&mut session, vec![transfer(caller, recipient, 0)], TWO_WORKERS);
    let second = execute_batch(&mut session, vec![transfer(caller, recipient, 1)], TWO_WORKERS);

    assert!(first.is_complete());
    assert!(second.is_complete());
    assert_eq!(first.processed_outcomes().unwrap().len(), 1);
    assert_eq!(second.processed_outcomes().unwrap().len(), 1);
    assert_eq!(session.state().bal_index(), 2);
    assert_eq!(observed.get(), 2);
    assert_eq!(nonce_of(&mut session, caller), 2);
}

#[test]
fn a_speculative_batch_equals_a_sequential_one() {
    let recipient = Address::with_last_byte(200);
    let callers: Vec<Address> = (210..214).map(Address::with_last_byte).collect();
    // Transfers of several callers to one recipient, which then passes the funds on.
    let mut txs = Vec::new();
    for nonce in 0..3 {
        for caller in &callers {
            txs.push(transfer(*caller, recipient, nonce));
        }
        txs.push(transfer(recipient, callers[0], nonce));
    }
    let mut seen = Vec::new();
    for (config, plan) in [
        (sequential_config(InvalidTransactionPolicy::Abort), None),
        (parallel_config(InvalidTransactionPolicy::Abort), TWO_WORKERS),
    ] {
        let mut session = session_with_config(config);
        for caller in &callers {
            session.state_mut().insert_account(
                caller.into_array(),
                AccountInfo { balance: U256::from(100).to_be_bytes(), ..Default::default() },
            );
        }
        let result = execute_batch(&mut session, txs.clone(), plan);
        let BatchExecutionResult::Complete(outcomes) = result else {
            panic!("every transaction is valid")
        };
        let results: Vec<String> = outcomes.iter().map(|outcome| format!("{outcome:?}")).collect();
        assert_eq!(session.state().bal_index(), 15);
        let accounts: Vec<([u8; 32], u64)> = callers
            .iter()
            .chain([&recipient])
            .map(|address| {
                let info = session.state_mut().db_basic(
                    address.into_array(),
                    |_| -> Result<Option<AccountInfo>, Infallible> {
                        panic!("the account is cached")
                    },
                );
                let info = info.unwrap().unwrap();
                (info.balance, info.nonce)
            })
            .collect();
        seen.push((results, accounts));
    }
    assert_eq!(seen[0], seen[1]);
}

#[test]
fn an_invalid_transaction_ends_every_run_alike() {
    let recipient = Address::with_last_byte(200);
    let callers: Vec<Address> = (210..214).map(Address::with_last_byte).collect();
    let mut txs = Vec::new();
    for nonce in 0..2 {
        for caller in &callers {
            txs.push(transfer(*caller, recipient, nonce));
        }
    }
    // Valid only once every transfer before it has reached the recipient, and invalid after it.
    txs.insert(6, TxEnv { value: U256::from(6), ..transfer(recipient, callers[0], 0) });
    txs.insert(7, TxEnv { value: U256::from(6), ..transfer(recipient, callers[0], 1) });
    for policy in [
        InvalidTransactionPolicy::Abort,
        InvalidTransactionPolicy::Omit,
        InvalidTransactionPolicy::IncludeNoop,
    ] {
        let mut seen = Vec::new();
        for (config, plan) in
            [(sequential_config(policy), None), (parallel_config(policy), TWO_WORKERS)]
        {
            let mut session = session_with_config(config);
            for caller in &callers {
                session.state_mut().insert_account(
                    caller.into_array(),
                    AccountInfo { balance: U256::from(100).to_be_bytes(), ..Default::default() },
                );
            }
            let result = execute_batch(&mut session, txs.clone(), plan);
            let failed_at = match &result {
                BatchExecutionResult::Failed { error, .. } => Some(error.txid),
                _ => None,
            };
            let abort = policy == InvalidTransactionPolicy::Abort;
            assert_eq!(failed_at, if abort { Some(7) } else { None });
            let outcomes: Vec<String> = result
                .processed_outcomes()
                .unwrap()
                .iter()
                .map(|outcome| format!("{outcome:?}"))
                .collect();
            assert_eq!(outcomes.len(), if abort { 7 } else { 10 });
            let nonces: Vec<u64> = callers
                .iter()
                .chain([&recipient])
                .map(|address| nonce_of(&mut session, *address))
                .collect();
            assert_eq!(nonces[4], 1);
            let moved = match policy {
                InvalidTransactionPolicy::Abort => 7,
                InvalidTransactionPolicy::Omit => 9,
                InvalidTransactionPolicy::IncludeNoop => 10,
            };
            assert_eq!(session.state().bal_index(), moved);
            let list = session.state_mut().take_built_alloy_bal().unwrap();
            seen.push((outcomes, nonces, list));
        }
        assert_eq!(seen[0], seen[1]);
    }
}

#[test]
fn failed_batch_returns_the_exact_committed_prefix() {
    let caller = Address::with_last_byte(1);
    let recipient = Address::with_last_byte(2);
    let mut session = session(InvalidTransactionPolicy::Abort);

    let result = execute_batch(
        &mut session,
        vec![transfer(caller, recipient, 0), transfer(caller, recipient, 3)],
        None,
    );

    let BatchExecutionResult::Failed { processed_prefix, error } = result else {
        panic!("invalid fixed-block transaction must fail")
    };
    assert_eq!(processed_prefix.len(), 1);
    assert_eq!(error.txid, 1);
    assert!(matches!(
        error.error,
        EVMError::Transaction(InvalidTransaction::NonceTooHigh { .. })
    ));
    assert_eq!(session.state().bal_index(), 1);
    assert_eq!(nonce_of(&mut session, caller), 1);
}

#[test]
fn cancellation_callback_can_borrow_and_preserves_the_committed_prefix() {
    let caller = Address::with_last_byte(1);
    let recipient = Address::with_last_byte(2);
    let cancelled = Rc::new(Cell::new(false));
    let cancel_after_commit = cancelled.clone();
    let mut session = session_with_config(parallel_config(InvalidTransactionPolicy::Abort));
    session.state_mut().set_state_hook(Some(Rc::new(move || {
        cancel_after_commit.set(true);
    })));

    let txs = vec![transfer(caller, recipient, 0), transfer(caller, recipient, 1)];
    let result = session.execute_batch_with_cancellation(txs.len(), |state, config| {
        // This closure borrows `cancelled`.
        run(&txs, state, config, &|| cancelled.get(), TWO_WORKERS)
    });

    let BatchExecutionResult::Interrupted { processed_prefix } = result else {
        panic!("cancellation after the first commit must stop the suffix")
    };
    assert_eq!(processed_prefix.len(), 1);
    assert_eq!(session.state().bal_index(), 1);
    assert_eq!(nonce_of(&mut session, caller), 1);
}

#[test]
fn cancellation_is_checked_before_parallel_or_sequential_work() {
    let caller = Address::with_last_byte(1);
    let recipient = Address::with_last_byte(2);

    for (config, plan) in [
        (sequential_config(InvalidTransactionPolicy::Abort), None),
        (parallel_config(InvalidTransactionPolicy::Abort), TWO_WORKERS),
    ] {
        let mut session = session_with_config(config);
        let txs = vec![transfer(caller, recipient, 0)];
        let result = session.execute_batch_with_cancellation(txs.len(), |state, config| {
            run(&txs, state, config, &|| true, plan)
        });

        let BatchExecutionResult::Interrupted { processed_prefix } = result else {
            panic!("an initial cancellation must interrupt before execution")
        };
        assert!(processed_prefix.is_empty());
        assert_eq!(session.state().bal_index(), 0);
        assert_eq!(nonce_of(&mut session, caller), 0);
    }
}

#[test]
fn invalid_transactions_are_skipped_where_the_policy_says_so() {
    let caller = Address::with_last_byte(1);
    let recipient = Address::with_last_byte(2);
    for policy in [InvalidTransactionPolicy::Omit, InvalidTransactionPolicy::IncludeNoop] {
        let mut session = session(policy);
        let result = execute_batch(
            &mut session,
            vec![
                transfer(caller, recipient, 0),
                transfer(caller, recipient, 3),
                transfer(caller, recipient, 1),
            ],
            None,
        );
        let BatchExecutionResult::Complete(outcomes) = result else {
            panic!("skipped transactions do not fail a batch")
        };
        let executed: Vec<bool> = outcomes.iter().map(|outcome| outcome.is_executed()).collect();
        assert_eq!(executed, vec![true, false, true]);
        assert_eq!(
            advances_block_index(policy, &outcomes[1]),
            policy == InvalidTransactionPolicy::IncludeNoop
        );
        assert!(advances_block_index(policy, &outcomes[0]));
        let expected = if policy == InvalidTransactionPolicy::IncludeNoop { 3 } else { 2 };
        assert_eq!(session.state().bal_index(), expected);
        assert_eq!(nonce_of(&mut session, caller), 2);
    }
}

fn success() -> ExecutionResult {
    ExecutionResult::Success {
        reason: SuccessReason::Stop,
        gas: ResultGas::default().with_total_gas_spent(GAS_LIMIT),
        logs: Vec::new(),
        output: Output::Call(Bytes::new()),
    }
}

fn scheduler(num_txs: usize, policy: InvalidTransactionPolicy) -> Scheduler<(), (), Infallible> {
    Scheduler::new_with_config(num_txs, (), sequential_config(policy))
}

#[test]
fn sequential_fatal_error_preserves_the_completed_prefix() {
    let mut scheduler = scheduler(3, InvalidTransactionPolicy::Abort);
    let replay = scheduler.execute_sequential_suffix(
        0,
        &|txid: usize, state: ()| {
            if txid == 1 {
                (Err(EVMError::Custom("fatal".to_owned())), state)
            } else {
                (Ok(success()), state)
            }
        },
        &|| false,
    );

    assert_eq!(replay.outcomes.len(), 1);
    let error = replay.error.expect("the second transaction must fail");
    assert_eq!(error.txid, 1);
    assert!(matches!(error.error, EVMError::Custom(message) if message == "fatal"));
}

#[test]
fn skipped_transaction_still_advances_the_replay_prefix() {
    let mut scheduler = scheduler(2, InvalidTransactionPolicy::IncludeNoop);
    let replay = scheduler.execute_sequential_suffix(
        0,
        &|txid: usize, state: ()| {
            if txid == 0 {
                let error = InvalidTransaction::NonceTooLow { tx: 0, state: 1 };
                (Err(EVMError::Transaction(error)), state)
            } else {
                (Ok(success()), state)
            }
        },
        &|| false,
    );

    assert!(replay.error.is_none());
    assert_eq!(replay.outcomes.len(), 2);
    assert!(matches!(replay.outcomes[0], TxExecutionOutcome::Skipped(_)));
    assert!(matches!(replay.outcomes[1], TxExecutionOutcome::Executed(_)));
    assert_eq!(scheduler.metrics().execution_cnt.get(), 2);
}

#[test]
fn the_policy_decides_over_invalid_transactions_only() {
    let invalid = || -> Result<ExecutionResult, EVMError<Infallible>> {
        Err(EVMError::Transaction(InvalidTransaction::NonceOverflowInTransaction))
    };
    assert!(matches!(
        classify(InvalidTransactionPolicy::Abort, invalid()),
        Err(EVMError::Transaction(_))
    ));
    for policy in [InvalidTransactionPolicy::Omit, InvalidTransactionPolicy::IncludeNoop] {
        assert!(matches!(classify(policy, invalid()), Ok(TxExecutionOutcome::Skipped(_))));
        let fatal: Result<ExecutionResult, EVMError<Infallible>> =
            Err(EVMError::Custom("fatal".to_owned()));
        assert!(matches!(classify(policy, fatal), Err(EVMError::Custom(_))));
    }
}

#[test]
fn an_inconsistent_outcome_count_poisons_the_session() {
    // More outcomes than transactions, and a success with too few of them.
    for (transactions, outcomes, reported) in [(1, 2, 0), (3, 1, 1), (0, 1, 0)] {
        let mut session: ExecutionSession<u8> =
            ExecutionSession::new(7, sequential_config(InvalidTransactionPolicy::Abort));
        assert!(session.is_available());
        let result: BatchExecutionResult<Infallible> =
            session.execute_batch(transactions, |state, _| {
                let outcomes = (0..outcomes).map(|_| TxExecutionOutcome::Executed(success()));
                (Ok(()), outcomes.collect(), state)
            });
        assert!(result.processed_outcomes().is_none());
        assert!(!result.is_complete());
        let BatchExecutionResult::InvariantViolation { error } = result else {
            panic!("the count is inconsistent")
        };
        assert_eq!(error.txid, reported);
        let expected = format!(
            "scheduler completed with {outcomes} outcomes for {transactions} transactions"
        );
        assert!(matches!(error.error, EVMError::Custom(message) if message == expected));
        assert!(!session.is_available());
    }
}

#[test]
fn a_failed_batch_keeps_its_state_and_prefix() {
    let mut session: ExecutionSession<u8> =
        ExecutionSession::new(7, sequential_config(InvalidTransactionPolicy::Abort));
    let result: BatchExecutionResult<Infallible> = session.execute_batch(5, |state, config| {
        assert_eq!(config, sequential_config(InvalidTransactionPolicy::Abort));
        let error = GrevmError { txid: 1, error: EVMError::Custom("fatal".to_owned()) };
        (Err(error), vec![TxExecutionOutcome::Executed(success())], state + 1)
    });
    assert!(matches!(result, BatchExecutionResult::Failed { .. }));
    assert_eq!(result.processed_outcomes().unwrap().len(), 1);
    assert_eq!(*session.state(), 8);
    assert_eq!(session.into_state(), 8);
}

#[test]
fn a_session_without_workers_is_refused() {
    let mut config = sequential_config(InvalidTransactionPolicy::Abort);
    config.concurrency_level = 0;
    assert!(matches!(
        ExecutionSession::try_new((), config),
        Err(GrevmConfigError::ZeroConcurrency)
    ));
    config.concurrency_level = 3;
    let session = ExecutionSession::try_new((), config).ok().unwrap();
    assert_eq!(session.config().concurrency_level, 3);
}

#[test]
fn the_block_index_moves_by_outcomes() {
    let invalid = || InvalidTransaction::NonceOverflowInTransaction;
    let executed = TxExecutionOutcome::Executed(success());
    let skipped = TxExecutionOutcome::Skipped(invalid());
    for (policy, after_skip) in [
        (InvalidTransactionPolicy::Abort, 4),
        (InvalidTransactionPolicy::Omit, 4),
        (InvalidTransactionPolicy::IncludeNoop, 5),
    ] {
        let mut state: ParallelState<u8, u8> = ParallelState::new(0, true, false);
        state.set_bal_index(3);
        settle_block_index(&mut state, policy, &executed);
        assert_eq!(state.bal_index(), 4);
        settle_block_index(&mut state, policy, &skipped);
        assert_eq!(state.bal_index(), after_skip);

        state.set_bal_index(3);
        let result: Result<ExecutionResult, EVMError<Infallible>> = Ok(success());
        settle_result_index(&mut state, policy, &result);
        assert_eq!(state.bal_index(), 4);
        let result: Result<ExecutionResult, EVMError<Infallible>> =
            Err(EVMError::Transaction(invalid()));
        settle_result_index(&mut state, policy, &result);
        assert_eq!(state.bal_index(), after_skip);
        let result: Result<ExecutionResult, EVMError<Infallible>> =
            Err(EVMError::Custom("fatal".to_owned()));
        settle_result_index(&mut state, policy, &result);
        assert_eq!(state.bal_index(), after_skip);
    }
}
