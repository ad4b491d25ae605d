//! The state that a block is executed on: a cache over a database, the transitions of the block,
//! and the block hashes that the EVM may ask for.

use crate::access_list::{
    access_list_finish, access_list_new, access_of, accessed, alloy_list, list_after, record_all,
    with_accesses, AccountAccess,
};
use crate::account::{
    into_revm_transition, storage_known, Account, AccountInfo, OwnedTransition, Transition,
};
use crate::bundle::{
    all_mergeable, bundle_merge, bundle_new, bundle_size, bundle_size_of, bundled, can_merge,
    codes_kept, codes_merge, merged_accounts, merges, needs_revert, only_changed, reverts_appended, reverts_created,
    reverts_kept, reverts_merge, sizes_match, BundledAccount, RevertedAccount,
};
use crate::cache::{holds_something, CacheAccountInfo, CacheView, ParallelCacheState};
use crate::primitives::{
    account_key_spec, code_key_spec, number_key, number_key_spec, slot_key_spec, zero_word, zero_word_spec, Address,
    Key, B256, U256,
};
use crate::table::Table;
use crate::transitions::{
    add_all, nothing_pending, pending, transitions_new, with_transitions, PendingTransition,
};
use revm_database::states::bundle_state::BundleRetention;
use revm_database::{AccountStatus, BundleState, TransitionState};
use revm_state::bal::alloy::AlloyAccountChanges;
use revm_state::bal::Bal;
use revm_state::Bytecode;
use vstd::prelude::*;

verus! {

/// Where the value of a storage slot comes from.
#[derive(Debug, Clone, Copy, PartialEq, Eq)]
pub enum StorageSource {
    /// The slot is cached.
    Cached(U256),
    /// The slot is not cached, but the database holds nothing that counts.
    Zero,
    /// Only the database knows.
    Database,
}

impl CacheView {
    /// The account is cached, and the database holds no storage of it that counts.
    pub open spec fn storage_is_known(self, address: Address) -> bool {
        self.account(address) matches Some(entry) && (storage_known(entry.status)
            || entry.account is None)
    }

    /// Where the value of a slot comes from. An account that is not cached does not decide: the
    /// database remains the source of truth.
    pub open spec fn storage_source(self, address: Address, index: U256) -> StorageSource {
        match self.slot(address, index) {
            Some(value) => StorageSource::Cached(value),
            None => if self.storage_is_known(address) {
                StorageSource::Zero
            } else {
                StorageSource::Database
            },
        }
    }

    /// With a value for a slot.
    pub open spec fn with_slot(self, address: Address, index: U256, value: U256) -> CacheView {
        CacheView { storage: self.storage.insert(slot_key_spec(address, index), value), ..self }
    }

    /// How answering an account read turns this cache into `after`: a cached account is the answer
    /// whatever the database says, and what the database has is cached.
    pub open spec fn fills_account(
        self,
        address: Address,
        info: Option<AccountInfo>,
        after: CacheView,
        answer: Option<AccountInfo>,
    ) -> bool {
        match self.account(address) {
            Some(entry) => after == self && answer == entry.account,
            None => exists|entry: CacheAccountInfo| {
                &&& #[trigger] entry.is_loaded_from(info)
                &&& after == self.with_account(address, entry)
                &&& answer == entry.account
            },
        }
    }

    /// How answering a code read turns this cache into `after`.
    pub open spec fn fills_code(
        self,
        hash: B256,
        code: Bytecode,
        after: CacheView,
        answer: Bytecode,
    ) -> bool {
        &&& after == self.with_code(hash, code)
        &&& after.contracts.contains_pair(code_key_spec(hash), answer)
    }

    /// How answering a storage read turns this cache into `after`.
    pub open spec fn fills_slot(
        self,
        address: Address,
        index: U256,
        value: U256,
        after: CacheView,
        answer: U256,
    ) -> bool {
        match self.slot(address, index) {
            Some(cached) => after == self && answer == cached,
            None => after == self.with_slot(address, index, value) && answer == value,
        }
    }
}

impl ParallelCacheState {
    /// The cached answer to an account read.
    pub fn lookup_basic(&self, address: Address) -> (answer: Option<Option<AccountInfo>>)
        requires
            self.wf(),
        ensures
            answer == match self@.account(address) {
                Some(entry) => Some(entry.account),
                None => None,
            },
            answer is Some <==> self@.accounts.contains_key(account_key_spec(address)),
            answer is Some ==> answer->0 == self@.accounts[account_key_spec(address)].account,
    {
        match self.account(address) {
            Some(entry) => Some(
                match &entry.account {
                    Some(info) => Some(info.clone()),
                    None => None,
                },
            ),
            None => None,
        }
    }

    /// Caches what the database answered to an account read, unless the account has been cached
    /// meanwhile, and returns the cached answer.
    pub fn fill_basic(&mut self, address: Address, info: Option<AccountInfo>) -> (answer: Option<
        AccountInfo,
    >)
        requires
            old(self).wf(),
        ensures
            final(self).wf(),
            old(self)@.fills_account(address, info, final(self)@, answer),
            final(self)@.accounts.contains_key(account_key_spec(address)),
            final(self)@.accounts[account_key_spec(address)].account == answer,
            !old(self)@.accounts.contains_key(account_key_spec(address)) ==> {
                &&& info is None ==> answer is None
                &&& info is Some && holds_something(info->0) ==> answer == info
                &&& info is Some && !holds_something(info->0) ==> answer is Some
                    && !holds_something(answer->0)
            },
    {
        match self.lookup_basic(address) {
            Some(answer) => answer,
            None => {
                let entry = CacheAccountInfo::from_loaded(info);
                let answer: Option<AccountInfo> = match &entry.account {
                    Some(info) => Some(info.clone()),
                    None => None,
                };
                let ghost loaded = entry;
                self.set_account(address, entry);
                assert(loaded.is_loaded_from(info));
                assert(self@.account(address) == Some(loaded));
                answer
            },
        }
    }

    /// Caches what the database answered to a code read, unless the code has been cached
    /// meanwhile, and returns the cached answer.
    pub fn fill_code(&mut self, hash: B256, code: Bytecode) -> (answer: Bytecode)
        requires
            old(self).wf(),
        ensures
            final(self).wf(),
            old(self)@.fills_code(hash, code, final(self)@, answer),
    {
        if let Some(cached) = self.code(hash) {
            return cached.clone();
        }
        let answer = code.clone();
        self.set_code(hash, code);
        answer
    }

    /// Where the value of a slot comes from.
    pub fn lookup_storage(&self, address: Address, index: U256) -> (source: StorageSource)
        requires
            self.wf(),
        ensures
            source == self@.storage_source(address, index),
            source is Cached <==> self@.storage.contains_key(slot_key_spec(address, index)),
            source is Cached ==> source->0 == self@.storage[slot_key_spec(address, index)],
            !self@.accounts.contains_key(account_key_spec(address)) ==> source !is Zero,
    {
        if let Some(value) = self.slot(address, index) {
            return StorageSource::Cached(value);
        }
        let known: bool = match self.account(address) {
            Some(entry) => entry.status.is_storage_known() || entry.account.is_none(),
            None => false,
        };
        if known {
            StorageSource::Zero
        } else {
            StorageSource::Database
        }
    }

    /// Caches the value of a slot, unless it has been cached meanwhile, and returns the cached
    /// value.
    pub fn fill_storage(&mut self, address: Address, index: U256, value: U256) -> (answer: U256)
        requires
            old(self).wf(),
        ensures
            final(self).wf(),
            old(self)@.fills_slot(address, index, value, final(self)@, answer),
    {
        match self.slot(address, index) {
            Some(cached) => cached,
            None => {
                self.set_slot(address, index, value);
                value
            },
        }
    }
}

/// The mathematical content of a [`ParallelState`].
#[verifier::ext_equal]
#[verifier::reject_recursive_types(DB)]
#[verifier::reject_recursive_types(H)]
pub struct StateView<DB, H> {
    /// The cached accounts, slots and codes.
    pub cache: CacheView,
    /// The backing database.
    pub database: DB,
    /// The merged transitions since they were last taken, if transitions are recorded at all.
    pub transitions: Option<Map<Address, PendingTransition>>,
    /// The accounts of the bundle, into which taken transitions are merged.
    pub bundle: Map<Address, BundledAccount>,
    /// The reverts of the bundle, one list per merge.
    pub reverts: Seq<Map<Address, RevertedAccount>>,
    /// The codes of the bundle, by their hashes.
    pub codes: Map<B256, Bytecode>,
    /// The known block hashes.
    pub block_hashes: Map<Key, B256>,
    /// The block access index of the next commit.
    pub bal_index: u64,
    /// What the commits accessed, if a block access list is built.
    pub access_list: Option<Map<Address, AccountAccess>>,
    /// The hook for commits.
    pub state_hook: Option<H>,
    /// Whether database latencies are reported.
    pub update_db_metrics: bool,
}

impl<DB, H> StateView<DB, H> {
    /// A state without any cached data.
    pub open spec fn fresh(
        database: DB,
        with_bundle_update: bool,
        update_db_metrics: bool,
    ) -> StateView<DB, H> {
        StateView {
            cache: CacheView {
                accounts: Map::empty(),
                storage: Map::empty(),
                contracts: Map::empty(),
            },
            database,
            transitions: if with_bundle_update {
                Some(Map::empty())
            } else {
                None
            },
            bundle: Map::empty(),
            reverts: Seq::empty(),
            codes: Map::empty(),
            block_hashes: Map::empty(),
            bal_index: 0,
            access_list: None,
            state_hook: None,
            update_db_metrics,
        }
    }

    /// With the accesses of an EVM output, if a block access list is built.
    pub open spec fn with_accessed(self, changes: Seq<(Address, Account)>) -> StateView<DB, H> {
        StateView {
            access_list: match self.access_list {
                Some(before) => Some(with_accesses(before, self.bal_index, changes)),
                None => None,
            },
            ..self
        }
    }

    /// With further transitions, if transitions are recorded.
    pub open spec fn recorded(self, transitions: Seq<(Address, Transition)>) -> StateView<DB, H> {
        StateView {
            transitions: match self.transitions {
                Some(before) => Some(with_transitions(before, transitions)),
                None => None,
            },
            ..self
        }
    }

    /// Every pending transition can be merged into the bundle.
    pub open spec fn mergeable(self) -> bool {
        self.transitions matches Some(transitions) ==> all_mergeable(self.bundle, transitions)
    }

    /// After the pending transitions were merged into the bundle, which then keeps `codes`.
    pub open spec fn merged(
        self,
        retention: BundleRetention,
        codes: Map<B256, Bytecode>,
    ) -> StateView<DB, H> {
        match self.transitions {
            Some(transitions) => StateView {
                transitions: Some(nothing_pending()),
                bundle: merged_accounts(self.bundle, transitions),
                reverts: self.reverts.push(
                    reverts_appended(reverts_created(self.bundle, transitions), retention),
                ),
                codes,
                ..self
            },
            None => self,
        }
    }

    /// How merging the pending transitions turns this state into `after`: the bundle takes the
    /// accounts over, keeps what undoes the merge if it is asked to, and keeps the new codes.
    pub open spec fn merges_into(
        self,
        retention: BundleRetention,
        after: StateView<DB, H>,
    ) -> bool {
        &&& after == self.merged(retention, after.codes)
        &&& self.transitions matches Some(transitions) ==> {
            &&& merges(self.bundle, transitions, after.bundle)
            &&& retention == BundleRetention::Reverts ==> reverts_merge(
                self.bundle,
                transitions,
                after.reverts.last(),
            )
            &&& codes_merge(self.codes, transitions, after.codes)
        }
    }

    /// Without anything in the bundle.
    pub open spec fn without_bundle(self) -> StateView<DB, H> {
        StateView { bundle: Map::empty(), reverts: Seq::empty(), codes: Map::empty(), ..self }
    }

    /// How committing an EVM output turns this state into `after`: the cache takes the accounts
    /// over, their transitions are recorded, and the block access list takes their accesses.
    pub open spec fn commits(
        self,
        changes: Seq<(Address, Account)>,
        after: StateView<DB, H>,
    ) -> bool {
        exists|transitions: Seq<(Address, Transition)>| {
            &&& #[trigger] self.cache.applies_all(changes, after.cache, transitions)
            &&& after == (StateView { cache: after.cache, ..self.with_accessed(changes) }).recorded(
                transitions,
            )
        }
    }
}

/// State of blockchain.
///
/// Fork-sensitive account semantics, including EIP-161 state clearing, are resolved by revm's
/// journal before the finalized state reaches this commit layer.
///
/// `DB` is the backing database, and `H` the hook that sees every canonical commit.
pub struct ParallelState<DB, H> {
    cache: ParallelCacheState,
    database: DB,
    transition_state: Option<TransitionState>,
    bundle_state: BundleState,
    block_hashes: Table<B256>,
    bal_index: u64,
    bal_builder: Option<Bal>,
    state_hook: Option<H>,
    update_db_metrics: bool,
}

impl<DB, H> View for ParallelState<DB, H> {
    type V = StateView<DB, H>;

    closed spec fn view(&self) -> StateView<DB, H> {
        StateView {
            cache: self.cache@,
            database: self.database,
            transitions: match self.transition_state {
                Some(state) => Some(pending(state)),
                None => None,
            },
            bundle: bundled(self.bundle_state),
            reverts: reverts_kept(self.bundle_state),
            codes: codes_kept(self.bundle_state),
            block_hashes: self.block_hashes@,
            bal_index: self.bal_index,
            access_list: match self.bal_builder {
                Some(list) => Some(accessed(list)),
                None => None,
            },
            state_hook: self.state_hook,
            update_db_metrics: self.update_db_metrics,
        }
    }
}

impl<DB, H> ParallelState<DB, H> {
    /// The representation invariant.
    pub closed spec fn wf(&self) -> bool {
        self.cache.wf() && self.block_hashes.wf() && sizes_match(self.bundle_state)
    }

    /// Create a ParallelState
    /// #Parameters
    /// - `database`: the inner database to read the data not in cache
    /// - `with_bundle_update`: whether to record transitions for the bundle
    /// - `update_db_metrics`: whether to report the database latency metrics
    pub fn new(database: DB, with_bundle_update: bool, update_db_metrics: bool) -> (state: Self)
        ensures
            state.wf(),
            state@ == StateView::<DB, H>::fresh(database, with_bundle_update, update_db_metrics),
    {
        ParallelState {
            cache: ParallelCacheState::new(),
            database,
            transition_state: if with_bundle_update {
                Some(transitions_new())
            } else {
                None
            },
            bundle_state: bundle_new(),
            block_hashes: Table::new(),
            bal_index: 0,
            bal_builder: None,
            state_hook: None,
            update_db_metrics,
        }
    }

    /// Create a state that records transitions for one block, without latency metrics.
    pub fn for_block(database: DB) -> (state: Self)
        ensures
            state.wf(),
            state@ == StateView::<DB, H>::fresh(database, true, false),
    {
        Self::new(database, true, false)
    }

    /// Returns the controlled preload and compatibility cache API.
    pub fn cache(&self) -> (cache: &ParallelCacheState)
        requires
            self.wf(),
        ensures
            cache.wf(),
            cache@ == self@.cache,
    {
        &self.cache
    }

    /// Returns mutable access to the controlled cache API.
    pub fn cache_mut(&mut self) -> (cache: &mut ParallelCacheState)
        requires
            old(self).wf(),
        ensures
            cache.wf(),
            cache@ == old(self)@.cache,
            final(cache).wf() ==> final(self).wf(),
            final(self)@ == (StateView { cache: final(cache)@, ..old(self)@ }),
    {
        &mut self.cache
    }

    /// Returns the backing database.
    pub fn database(&self) -> (database: &DB)
        ensures
            *database == self@.database,
    {
        &self.database
    }

    /// Returns mutable access to the backing database while the state is exclusively borrowed.
    pub fn database_mut(&mut self) -> (database: &mut DB)
        requires
            old(self).wf(),
        ensures
            *database == old(self)@.database,
            final(self).wf(),
            final(self)@ == (StateView { database: *final(database), ..old(self)@ }),
    {
        &mut self.database
    }

    /// Consumes the state and returns its backing database.
    ///
    /// Pending transitions and the bundle are discarded. Take them before using this method when
    /// they are required by the integration.
    pub fn into_database(self) -> (database: DB)
        ensures
            database == self@.database,
    {
        self.database
    }

    /// Whether database latencies are reported.
    pub fn update_db_metrics(&self) -> (update: bool)
        ensures
            update == self@.update_db_metrics,
    {
        self.update_db_metrics
    }

    /// Inserts or replaces a cached block hash used by EVM `BLOCKHASH` reads, and returns the
    /// hash that it replaced.
    pub fn insert_block_hash(&mut self, number: u64, hash: B256) -> (previous: Option<B256>)
        requires
            old(self).wf(),
        ensures
            final(self).wf(),
            final(self)@ == (StateView {
                block_hashes: old(self)@.block_hashes.insert(number_key_spec(number), hash),
                ..old(self)@
            }),
            previous == (if old(self)@.block_hashes.contains_key(number_key_spec(number)) {
                Some(old(self)@.block_hashes[number_key_spec(number)])
            } else {
                None
            }),
    {
        let key: Key = number_key(number);
        let previous: Option<B256> = match self.block_hashes.get(&key) {
            Some(hash) => Some(*hash),
            None => None,
        };
        self.block_hashes.insert(key, hash);
        previous
    }

    /// Enable EIP-7928 block access list construction.
    pub fn with_bal_builder(self) -> (state: Self)
        requires
            self.wf(),
        ensures
            state.wf(),
            state@ == (StateView { access_list: Some(Map::empty()), ..self@ }),
    {
        let mut state = self;
        state.bal_builder = Some(access_list_new());
        state
    }

    /// Enable EIP-7928 block access list construction when `enabled` is true.
    pub fn with_bal_builder_if(self, enabled: bool) -> (state: Self)
        requires
            self.wf(),
        ensures
            state.wf(),
            state@ == (if enabled {
                StateView { access_list: Some(Map::empty()), ..self@ }
            } else {
                self@
            }),
    {
        if enabled {
            self.with_bal_builder()
        } else {
            self
        }
    }

    /// Take the constructed EIP-7928 block access list. None is built afterwards, and the index
    /// starts over.
    pub fn take_built_alloy_bal(&mut self) -> (list: Option<Vec<AlloyAccountChanges>>)
        requires
            old(self).wf(),
        ensures
            final(self).wf(),
            match (list, old(self)@.access_list) {
                (Some(list), Some(accounts)) => list@ == alloy_list(accounts),
                (None, None) => true,
                _ => false,
            },
            final(self)@ == (StateView { access_list: None, bal_index: 0, ..old(self)@ }),
    {
        self.bal_index = 0;
        match self.bal_builder.take() {
            Some(list) => Some(access_list_finish(list)),
            None => None,
        }
    }

    /// Set the EIP-7928 index used by the next canonical commit.
    pub fn set_bal_index(&mut self, index: u64)
        requires
            old(self).wf(),
        ensures
            final(self).wf(),
            final(self)@ == (StateView { bal_index: index, ..old(self)@ }),
    {
        self.bal_index = index;
    }

    /// Advance the EIP-7928 index used by the next canonical commit.
    pub fn bump_bal_index(&mut self)
        requires
            old(self).wf(),
            old(self)@.bal_index < u64::MAX,
        ensures
            final(self).wf(),
            final(self)@ == (StateView {
                bal_index: (old(self)@.bal_index + 1) as u64,
                ..old(self)@
            }),
    {
        self.bal_index = self.bal_index + 1;
    }

    /// Return the EIP-7928 index used by the next canonical commit.
    pub fn bal_index(&self) -> (index: u64)
        ensures
            index == self@.bal_index,
    {
        self.bal_index
    }

    /// Install or clear the canonical state commit hook.
    pub fn set_state_hook(&mut self, hook: Option<H>)
        requires
            old(self).wf(),
        ensures
            final(self).wf(),
            final(self)@ == (StateView { state_hook: hook, ..old(self)@ }),
    {
        self.state_hook = hook;
    }

    /// Take the canonical state commit hook, leaving no hook installed.
    ///
    /// This is useful when an integration needs to perform metadata-only empty commits before
    /// restoring the same hook for later consensus state changes.
    pub fn take_state_hook(&mut self) -> (hook: Option<H>)
        requires
            old(self).wf(),
        ensures
            final(self).wf(),
            hook == old(self)@.state_hook,
            final(self)@ == (StateView { state_hook: None, ..old(self)@ }),
    {
        self.state_hook.take()
    }

    /// Insert non-existent account
    pub fn insert_not_existing(&mut self, address: Address)
        requires
            old(self).wf(),
        ensures
            final(self).wf(),
            final(self)@ == (StateView { cache: final(self)@.cache, ..old(self)@ }),
            final(self)@.cache == old(self)@.cache.without_storage(address).with_account(
                address,
                (CacheAccountInfo {
                    account: None,
                    status: revm_database::AccountStatus::LoadedNotExisting,
                }),
            ),
    {
        self.cache.insert_not_existing(address);
    }

    /// Insert account with specified `AccountInfo`
    pub fn insert_account(&mut self, address: Address, info: AccountInfo)
        requires
            old(self).wf(),
        ensures
            final(self).wf(),
            final(self)@ == (StateView { cache: final(self)@.cache, ..old(self)@ }),
            exists|entry: CacheAccountInfo| {
                &&& #[trigger] entry.is_loaded_from(Some(info))
                &&& final(self)@.cache == old(self)@.cache.without_storage(address).with_account(
                    address,
                    entry,
                )
            },
            final(self)@.cache.accounts.contains_key(account_key_spec(address)),
            holds_something(info) ==> final(self)@.cache.accounts[account_key_spec(address)] == (
            CacheAccountInfo { account: Some(info), status: AccountStatus::Loaded }),
            !holds_something(info) ==> {
                let entry = final(self)@.cache.accounts[account_key_spec(address)];
                &&& entry.status == AccountStatus::LoadedEmptyEIP161
                &&& entry.account is Some
                &&& !holds_something(entry.account->0)
            },
    {
        self.cache.insert_account(address, info);
    }

    /// Insert account with `AccountInfo` and storage
    pub fn insert_account_with_storage(
        &mut self,
        address: Address,
        info: AccountInfo,
        storage: Vec<(U256, U256)>,
    )
        requires
            old(self).wf(),
        ensures
            final(self).wf(),
            final(self)@ == (StateView { cache: final(self)@.cache, ..old(self)@ }),
            exists|entry: CacheAccountInfo| {
                &&& #[trigger] entry.is_loaded_from(Some(info))
                &&& final(self)@.cache == (CacheView {
                    storage: crate::cache::values_written(
                        old(self)@.cache.without_storage(address).storage,
                        address,
                        storage@,
                    ),
                    ..old(self)@.cache
                }).with_account(address, entry)
            },
            final(self)@.cache.accounts.contains_key(account_key_spec(address)),
            holds_something(info) ==> final(self)@.cache.accounts[account_key_spec(address)] == (
            CacheAccountInfo { account: Some(info), status: AccountStatus::Loaded }),
            !holds_something(info) ==> {
                let entry = final(self)@.cache.accounts[account_key_spec(address)];
                &&& entry.status == AccountStatus::LoadedEmptyEIP161
                &&& entry.account is Some
                &&& !holds_something(entry.account->0)
            },
    {
        self.cache.insert_account_with_storage(address, info, storage);
    }

    /// Add already constructed account transitions to the block transition state.
    ///
    /// This compatibility API is retained for integrations that applied
    /// [`ParallelCacheState::apply_evm_state`] separately. New code should prefer
    /// [`ParallelState::commit`].
    pub fn apply_transition(&mut self, transitions: Vec<(Address, OwnedTransition)>)
        requires
            old(self).wf(),
        ensures
            final(self).wf(),
            final(self)@ == old(self)@.recorded(listed(transitions@)),
    {
        if let Some(mut state) = self.transition_state.take() {
            let listed_transitions = list_transitions(transitions);
            add_all(&mut state, listed_transitions);
            self.transition_state = Some(state);
        }
    }

    /// Commits an EVM output: its accounts reach the block access list and the cache, and their
    /// transitions are recorded.
    /// Returns whether a hook has to see the output.
    pub fn commit(&mut self, evm_state: Vec<(Address, Account)>) -> (notify: bool)
        requires
            old(self).wf(),
            forall|i: int|
                0 <= i < evm_state@.len() ==> CacheView::applicable((#[trigger] evm_state@[i]).1),
        ensures
            final(self).wf(),
            old(self)@.commits(evm_state@, final(self)@),
            notify == old(self)@.state_hook is Some,
    {
        let ghost before = self@;
        let ghost changes = evm_state@;
        if let Some(mut list) = self.bal_builder.take() {
            record_all(&mut list, self.bal_index, &evm_state);
            self.bal_builder = Some(list);
        }
        let transitions = self.cache.apply_evm_state_with(evm_state);
        let ghost all = transitions@;
        assert(before.cache.applies_all(changes, self.cache@, all));
        if let Some(mut state) = self.transition_state.take() {
            add_all(&mut state, transitions);
            self.transition_state = Some(state);
        }
        assert(self@ == (StateView { cache: self@.cache, ..before.with_accessed(changes) }).recorded(
            all,
        ));
        assert(before.cache.applies_all(changes, self@.cache, all));
        self.state_hook.is_some()
    }

    /// Takes all transitions since the last call, to be merged into a bundle; nothing if
    /// transitions are not recorded.
    pub fn take_transitions(&mut self) -> (taken: Option<TransitionState>)
        requires
            old(self).wf(),
        ensures
            final(self).wf(),
            match taken {
                Some(taken) => {
                    &&& old(self)@.transitions == Some(pending(taken))
                    &&& final(self)@ == (StateView {
                        transitions: Some(nothing_pending()),
                        ..old(self)@
                    })
                },
                None => old(self)@.transitions is None && final(self)@ == old(self)@,
            },
    {
        match self.transition_state.take() {
            Some(mut state) => {
                let taken = state.take();
                self.transition_state = Some(state);
                Some(taken)
            },
            None => None,
        }
    }

    /// Whether every pending transition can be merged into the bundle.
    pub fn can_merge_transitions(&self) -> (can: bool)
        requires
            self.wf(),
        ensures
            can == self@.mergeable(),
    {
        match &self.transition_state {
            Some(transitions) => can_merge(&self.bundle_state, transitions),
            None => true,
        }
    }

    /// Take all transitions and merge them inside bundle state.
    /// This action will create final post state and all reverts so that
    /// we at any time revert state of bundle to the state before transition
    /// is applied.
    pub fn merge_transitions(&mut self, retention: BundleRetention)
        requires
            old(self).wf(),
            old(self)@.mergeable(),
        ensures
            final(self).wf(),
            old(self)@.merges_into(retention, final(self)@),
    {
        if let Some(transitions) = self.take_transitions() {
            bundle_merge(&mut self.bundle_state, transitions, retention);
        }
    }

    /// The accumulated bundle.
    pub closed spec fn held_bundle(&self) -> BundleState {
        self.bundle_state
    }

    /// Returns the size hint for the inner bundle state.
    pub fn bundle_size_hint(&self) -> (size: usize)
        requires
            self.wf(),
        ensures
            size == bundle_size(self.held_bundle()),
            bundled(self.held_bundle()) == self@.bundle,
    {
        bundle_size_of(&self.bundle_state)
    }

    /// Takes the accumulated [`BundleState`], replacing it with an empty one.
    ///
    /// This is a low-level, destructive operation: it does not apply or drain pending transitions.
    /// Call [`ParallelState::take_bundle_with_retention`] when producing a finalized block bundle;
    /// use this method directly only after transitions have already been merged.
    pub fn take_bundle(&mut self) -> (bundle: BundleState)
        requires
            old(self).wf(),
        ensures
            final(self).wf(),
            bundle == old(self).held_bundle(),
            bundled(bundle) == old(self)@.bundle,
            reverts_kept(bundle) == old(self)@.reverts,
            codes_kept(bundle) == old(self)@.codes,
            final(self)@ == old(self)@.without_bundle(),
    {
        let mut bundle = bundle_new();
        std::mem::swap(&mut bundle, &mut self.bundle_state);
        bundle
    }

    /// Finalizes the pending transitions by merging them and takes the bundle of the block.
    pub fn take_bundle_with_retention(&mut self, retention: BundleRetention) -> (bundle: BundleState)
        requires
            old(self).wf(),
            old(self)@.mergeable(),
        ensures
            final(self).wf(),
            exists|merged: StateView<DB, H>| {
                &&& #[trigger] old(self)@.merges_into(retention, merged)
                &&& bundled(bundle) == merged.bundle
                &&& reverts_kept(bundle) == merged.reverts
                &&& codes_kept(bundle) == merged.codes
                &&& final(self)@ == merged.without_bundle()
            },
    {
        self.merge_transitions(retention);
        let ghost merged = self@;
        assert(old(self)@.merges_into(retention, merged));
        self.take_bundle()
    }

    /// Reads an account: from the cache, or else with `read` from the database. What the database
    /// has is cached; an error is not.
    pub fn db_basic<E, F: FnOnce(&DB) -> Result<Option<AccountInfo>, E>>(
        &mut self,
        address: Address,
        read: F,
    ) -> (answer: Result<Option<AccountInfo>, E>)
        requires
            old(self).wf(),
            old(self)@.cache.account(address) is None ==> call_requires(
                read,
                (&old(self)@.database,),
            ),
        ensures
            final(self).wf(),
            final(self)@ == (StateView { cache: final(self)@.cache, ..old(self)@ }),
            match old(self)@.cache.account(address) {
                Some(entry) => {
                    &&& final(self)@.cache == old(self)@.cache
                    &&& answer == Ok::<Option<AccountInfo>, E>(entry.account)
                },
                None => exists|loaded: Result<Option<AccountInfo>, E>| {
                    &&& #[trigger] call_ensures(read, (&old(self)@.database,), loaded)
                    &&& match loaded {
                        Ok(info) => match answer {
                            Ok(answer) => old(self)@.cache.fills_account(
                                address,
                                info,
                                final(self)@.cache,
                                answer,
                            ),
                            Err(_) => false,
                        },
                        Err(error) => {
                            &&& final(self)@.cache == old(self)@.cache
                            &&& answer == Err::<Option<AccountInfo>, E>(error)
                        },
                    }
                },
            },
            !old(self)@.cache.accounts.contains_key(account_key_spec(address)) ==> exists|
                loaded: Result<Option<AccountInfo>, E>,
            |
                #[trigger] call_ensures(read, (&old(self)@.database,), loaded) && match loaded {
                    Ok(None) => answer == Ok::<Option<AccountInfo>, E>(None),
                    Ok(Some(info)) => if holds_something(info) {
                        answer == Ok::<Option<AccountInfo>, E>(Some(info))
                    } else {
                        answer is Ok && answer->Ok_0 is Some && !holds_something(
                            answer->Ok_0->0,
                        )
                    },
                    Err(error) => answer == Err::<Option<AccountInfo>, E>(error),
                },
            old(self)@.cache.accounts.contains_key(account_key_spec(address)) ==> answer == Ok::<
                Option<AccountInfo>,
                E,
            >(old(self)@.cache.accounts[account_key_spec(address)].account),
    {
        let ghost before = self@;
        if let Some(answer) = self.cache.lookup_basic(address) {
            return Ok(answer);
        }
        let loaded = read(&self.database);
        let ghost outcome = loaded;
        assert(call_ensures(read, (&before.database,), outcome));
        match loaded {
            Ok(info) => Ok(self.cache.fill_basic(address, info)),
            Err(error) => Err(error),
        }
    }

    /// Reads a contract's code: from the cache, or else with `read` from the database. What the
    /// database has is cached; an error is not.
    pub fn db_code_by_hash<E, F: FnOnce(&DB) -> Result<Bytecode, E>>(
        &mut self,
        code_hash: B256,
        read: F,
    ) -> (answer: Result<Bytecode, E>)
        requires
            old(self).wf(),
            !old(self)@.cache.contracts.contains_key(code_key_spec(code_hash)) ==> call_requires(
                read,
                (&old(self)@.database,),
            ),
        ensures
            final(self).wf(),
            final(self)@ == (StateView { cache: final(self)@.cache, ..old(self)@ }),
            if old(self)@.cache.contracts.contains_key(code_key_spec(code_hash)) {
                &&& final(self)@.cache == old(self)@.cache
                &&& answer == Ok::<Bytecode, E>(
                    old(self)@.cache.contracts[code_key_spec(code_hash)],
                )
            } else {
                &&& call_ensures(read, (&old(self)@.database,), answer)
                &&& final(self)@.cache == match answer {
                    Ok(code) => old(self)@.cache.with_code(code_hash, code),
                    Err(_) => old(self)@.cache,
                }
            },
    {
        if let Some(code) = self.cache.code(code_hash) {
            return Ok(code.clone());
        }
        let loaded = read(&self.database);
        match loaded {
            Ok(code) => Ok(self.cache.fill_code(code_hash, code)),
            Err(error) => Err(error),
        }
    }

    /// Reads a storage slot: from the cache; zero where the database holds nothing that counts; or
    /// else with `read` from the database. The value is cached; an error is not.
    pub fn db_storage<E, F: FnOnce(&DB) -> Result<U256, E>>(
        &mut self,
        address: Address,
        index: U256,
        read: F,
    ) -> (answer: Result<U256, E>)
        requires
            old(self).wf(),
            old(self)@.cache.storage_source(address, index) is Database ==> call_requires(
                read,
                (&old(self)@.database,),
            ),
        ensures
            final(self).wf(),
            final(self)@ == (StateView { cache: final(self)@.cache, ..old(self)@ }),
            match old(self)@.cache.storage_source(address, index) {
                StorageSource::Cached(value) => {
                    &&& final(self)@.cache == old(self)@.cache
                    &&& answer == Ok::<U256, E>(value)
                },
                StorageSource::Zero => {
                    &&& final(self)@.cache == old(self)@.cache.with_slot(
                        address,
                        index,
                        zero_word_spec(),
                    )
                    &&& answer == Ok::<U256, E>(zero_word_spec())
                },
                StorageSource::Database => {
                    &&& call_ensures(read, (&old(self)@.database,), answer)
                    &&& final(self)@.cache == match answer {
                        Ok(value) => old(self)@.cache.with_slot(address, index, value),
                        Err(_) => old(self)@.cache,
                    }
                },
            },
    {
        match self.cache.lookup_storage(address, index) {
            StorageSource::Cached(value) => Ok(value),
            StorageSource::Zero => Ok(self.cache.fill_storage(address, index, zero_word())),
            StorageSource::Database => {
                let loaded = read(&self.database);
                match loaded {
                    Ok(value) => Ok(self.cache.fill_storage(address, index, value)),
                    Err(error) => Err(error),
                }
            },
        }
    }

    /// Reads a block hash: an inserted or earlier read one, or else with `read` from the database.
    /// What the database has is remembered; an error is not.
    pub fn db_block_hash<E, F: FnOnce(&DB) -> Result<B256, E>>(
        &mut self,
        number: u64,
        read: F,
    ) -> (answer: Result<B256, E>)
        requires
            old(self).wf(),
            !old(self)@.block_hashes.contains_key(number_key_spec(number)) ==> call_requires(
                read,
                (&old(self)@.database,),
            ),
        ensures
            final(self).wf(),
            if old(self)@.block_hashes.contains_key(number_key_spec(number)) {
                &&& final(self)@ == old(self)@
                &&& answer == Ok::<B256, E>(old(self)@.block_hashes[number_key_spec(number)])
            } else {
                &&& call_ensures(read, (&old(self)@.database,), answer)
                &&& final(self)@ == match answer {
                    Ok(hash) => (StateView {
                        block_hashes: old(self)@.block_hashes.insert(
                            number_key_spec(number),
                            hash,
                        ),
                        ..old(self)@
                    }),
                    Err(_) => old(self)@,
                }
            },
    {
        let key: Key = number_key(number);
        if let Some(hash) = self.block_hashes.get(&key) {
            return Ok(*hash);
        }
        let loaded = read(&self.database);
        match loaded {
            Ok(hash) => {
                self.block_hashes.insert(key, hash);
                Ok(hash)
            },
            Err(error) => Err(error),
        }
    }
}

/// Owned transitions as transitions with slots.
pub open spec fn listed(transitions: Seq<(Address, OwnedTransition)>) -> Seq<(Address, Transition)> {
    transitions.map_values(
        |item: (Address, OwnedTransition)|
            (
                item.0,
                Transition {
                    info: item.1.info,
                    status: item.1.status,
                    previous_info: item.1.previous_info,
                    previous_status: item.1.previous_status,
                    storage: Some(item.1.storage),
                    storage_was_destroyed: item.1.storage_was_destroyed,
                },
            ),
    )
}

/// Turns owned transitions into transitions with slots.
fn list_transitions(transitions: Vec<(Address, OwnedTransition)>) -> (list: Vec<
    (Address, Transition),
>)
    ensures
        list@ == listed(transitions@),
{
    let ghost given = transitions@;
    let mut list: Vec<(Address, Transition)> = Vec::new();
    for item in iter: transitions
        invariant
            iter.seq() == given,
            list@.len() == iter.index(),
            forall|i: int| 0 <= i < list@.len() ==> #[trigger] list@[i] == listed(given)[i],
    {
        let (address, transition) = item;
        list.push((address, into_revm_transition(transition)));
    }
    assert(list@ =~= listed(given));
    list
}

/// After an account read that succeeded, reading the account again gives the same answer without
/// the database.
pub proof fn law_account_read_is_stable(
    before: CacheView,
    address: Address,
    info: Option<AccountInfo>,
    after: CacheView,
    answer: Option<AccountInfo>,
)
    requires
        before.fills_account(address, info, after, answer),
    ensures
        after.account(address) matches Some(entry) && entry.account == answer,
        forall|other: Address|
            other != address ==> #[trigger] after.account(other) == before.account(other),
        after.storage == before.storage,
        after.contracts == before.contracts,
{
}

/// After a storage read that succeeded, the slot is cached with the answer, and every other slot
/// and account is as before.
pub proof fn law_storage_read_is_stable(
    before: CacheView,
    address: Address,
    index: U256,
    value: U256,
    after: CacheView,
    answer: U256,
)
    requires
        before.fills_slot(address, index, value, after, answer),
    ensures
        after.storage_source(address, index) == StorageSource::Cached(answer),
        forall|other: Address, slot: U256|
            (other, slot) != (address, index) ==> #[trigger] after.slot(other, slot) == before.slot(
                other,
                slot,
            ),
        after.accounts == before.accounts,
{
}

/// Once a change destroyed, created or emptied an account, every slot of it is read without the
/// database: the slots that a created account changed have their new values, all others are zero.
pub proof fn law_cleared_account_reads_zero(
    before: CacheView,
    address: Address,
    account: Account,
    after: CacheView,
    transition: Option<Transition>,
    slot: U256,
)
    requires
        before.applies(address, account, after, transition),
        account.touched,
        account.selfdestructed || account.created || account.info.empty(),
    ensures
        after.storage_source(address, slot) == match crate::cache::written_value(
            account.storage@,
            slot,
        ) {
            Some(value) => if account.created && !account.selfdestructed {
                StorageSource::Cached(value)
            } else {
                StorageSource::Zero
            },
            None => StorageSource::Zero,
        },
{
    if !account.selfdestructed && account.created {
        crate::cache::law_only_changed_slots_persist(
            before,
            address,
            account,
            after,
            transition,
            slot,
        );
    }
}

/// After a commit, an address that the output names once reads as the output says: an untouched
/// account as before; a destroyed or emptied one as missing, with every slot zero; and any other
/// with its new balance, nonce and code, its changed slots with their new values, and its other
/// slots zero if it was created and as before if not.
pub proof fn law_commit_reads_back<DB, H>(
    before: StateView<DB, H>,
    changes: Seq<(Address, Account)>,
    after: StateView<DB, H>,
    position: int,
    slot: U256,
)
    requires
        before.commits(changes, after),
        0 <= position < changes.len(),
        forall|i: int|
            0 <= i < changes.len() && i != position ==> (#[trigger] changes[i]).0
                != changes[position].0,
    ensures
        ({
            let (address, account) = changes[position];
            let source = after.cache.storage_source(address, slot);
            if !account.touched {
                &&& after.cache.account(address) == before.cache.account(address)
                &&& source == before.cache.storage_source(address, slot)
            } else if account.selfdestructed || (!account.created && account.info.empty()) {
                &&& after.cache.account(address) is Some
                &&& after.cache.account(address)->0.account is None
                &&& source == StorageSource::Zero
            } else {
                &&& after.cache.account(address) is Some
                &&& after.cache.account(address)->0.account == Some(account.info)
                &&& match crate::cache::written_value(account.storage@, slot) {
                    Some(value) => source == StorageSource::Cached(value),
                    None => if account.created {
                        source == StorageSource::Zero
                    } else {
                        after.cache.slot(address, slot) == before.cache.slot(address, slot)
                    },
                }
            }
        }),
{
    let (address, account) = changes[position];
    let transitions = choose|transitions: Seq<(Address, Transition)>|
        #[trigger] before.cache.applies_all(changes, after.cache, transitions)
            && after == (StateView { cache: after.cache, ..before.with_accessed(changes) }).recorded(
                transitions,
            );
    let (middle, end, transition) = crate::cache::lemma_one_entry_decides(
        before.cache,
        changes,
        after.cache,
        transitions,
        position,
    );
    if account.touched {
        if !account.selfdestructed && (account.created || !account.info.empty()) {
            crate::cache::law_only_changed_slots_persist(
                middle,
                address,
                account,
                end,
                transition,
                slot,
            );
        }
        if account.selfdestructed || account.created || account.info.empty() {
            law_cleared_account_reads_zero(middle, address, account, end, transition, slot);
        }
        assert(after.cache.slot(address, slot) == end.slot(address, slot));
        assert(middle.slot(address, slot) == before.cache.slot(address, slot));
    }
}

/// A commit leaves every address that the output does not name as it was, in the cache and in the
/// block access list, and the database, the block hashes and the hook in any case.
pub proof fn law_commit_is_local<DB, H>(
    before: StateView<DB, H>,
    changes: Seq<(Address, Account)>,
    after: StateView<DB, H>,
    address: Address,
)
    requires
        before.commits(changes, after),
        forall|i: int| 0 <= i < changes.len() ==> (#[trigger] changes[i]).0 != address,
    ensures
        after.cache.same_at(before.cache, address),
        before.access_list is Some <==> after.access_list is Some,
        before.access_list is Some ==> access_of(after.access_list->0, address) == access_of(
            before.access_list->0,
            address,
        ),
        after.database == before.database,
        after.block_hashes == before.block_hashes,
        after.bal_index == before.bal_index,
        after.state_hook == before.state_hook,
{
    let transitions = choose|transitions: Seq<(Address, Transition)>|
        #[trigger] before.cache.applies_all(changes, after.cache, transitions)
            && after == (StateView { cache: after.cache, ..before.with_accessed(changes) }).recorded(
                transitions,
            );
    crate::cache::law_other_addresses_are_unaffected(
        before.cache,
        changes,
        after.cache,
        transitions,
        address,
    );
    if before.access_list is Some {
        crate::access_list::law_other_accesses_are_unaffected(
            before.access_list->0,
            before.bal_index,
            changes,
            address,
        );
    }
}

/// Committing an EVM output under a block access index turns `before` into `after`.
pub open spec fn commits_under<DB, H>(
    before: StateView<DB, H>,
    index: u64,
    changes: Seq<(Address, Account)>,
    after: StateView<DB, H>,
) -> bool {
    (StateView { bal_index: index, ..before }).commits(changes, after)
}

/// EVM outputs that are committed one after the other, each under its block access index, turn
/// `first` into `last`.
pub open spec fn commits_in_turn<DB, H>(
    first: StateView<DB, H>,
    commits: Seq<(u64, Seq<(Address, Account)>)>,
    last: StateView<DB, H>,
) -> bool
    decreases commits.len(),
{
    if commits.len() == 0 {
        last == first
    } else {
        exists|middle: StateView<DB, H>| #[trigger]
            commits_under(middle, commits.last().0, commits.last().1, last) && commits_in_turn(
                first,
                commits.drop_last(),
                middle,
            )
    }
}

/// The block access list is a function of the indices and the outputs that were committed under
/// them, whatever the database, the cache and the hook are: it is what recording them one after the
/// other in an empty list gives.
pub proof fn law_commits_decide_the_access_list<DB, H>(
    first: StateView<DB, H>,
    commits: Seq<(u64, Seq<(Address, Account)>)>,
    last: StateView<DB, H>,
)
    requires
        commits_in_turn(first, commits, last),
    ensures
        match (first.access_list, last.access_list) {
            (Some(before), Some(after)) => after == list_after(before, commits),
            (None, None) => true,
            _ => false,
        },
    decreases commits.len(),
{
    if commits.len() > 0 {
        let middle = choose|middle: StateView<DB, H>| #[trigger]
            commits_under(middle, commits.last().0, commits.last().1, last) && commits_in_turn(
                first,
                commits.drop_last(),
                middle,
            );
        law_commits_decide_the_access_list(first, commits.drop_last(), middle);
    }
}

/// Commits keep the hook installed, so each of them owes it its output, exactly once and in the order
/// of the commits.
pub proof fn law_commits_keep_the_hook<DB, H>(
    first: StateView<DB, H>,
    commits: Seq<(u64, Seq<(Address, Account)>)>,
    last: StateView<DB, H>,
)
    requires
        commits_in_turn(first, commits, last),
    ensures
        last.state_hook == first.state_hook,
    decreases commits.len(),
{
    if commits.len() > 0 {
        let middle = choose|middle: StateView<DB, H>| #[trigger]
            commits_under(middle, commits.last().0, commits.last().1, last) && commits_in_turn(
                first,
                commits.drop_last(),
                middle,
            );
        law_commits_keep_the_hook(first, commits.drop_last(), middle);
    }
}

/// Two states that build block access lists and commit the same outputs under the same indices
/// finish equal lists, also where they commit to different databases.
pub proof fn law_equal_commits_give_equal_access_lists<DB, H, OtherDB, OtherH>(
    first: StateView<DB, H>,
    last: StateView<DB, H>,
    other_first: StateView<OtherDB, OtherH>,
    other_last: StateView<OtherDB, OtherH>,
    commits: Seq<(u64, Seq<(Address, Account)>)>,
)
    requires
        commits_in_turn(first, commits, last),
        commits_in_turn(other_first, commits, other_last),
        first.access_list is Some,
        other_first.access_list == first.access_list,
    ensures
        last.access_list is Some,
        other_last.access_list == last.access_list,
        alloy_list(last.access_list->0) == alloy_list(list_after(first.access_list->0, commits)),
        alloy_list(other_last.access_list->0) == alloy_list(last.access_list->0),
{
    law_commits_decide_the_access_list(first, commits, last);
    law_commits_decide_the_access_list(other_first, commits, other_last);
}

/// A merge that is asked for reverts keeps, behind those of earlier merges, the value from before it
/// of every slot that it changed without destroying the account; one that is not asked for them
/// keeps none.
pub proof fn law_reverts_know_the_values_before<DB, H>(
    before: StateView<DB, H>,
    retention: BundleRetention,
    after: StateView<DB, H>,
    address: Address,
    slot: U256,
)
    requires
        before.merges_into(retention, after),
        before.transitions is Some,
    ensures
        after.reverts.len() == before.reverts.len() + 1,
        before.reverts.is_prefix_of(after.reverts),
        retention == BundleRetention::PlainState ==> after.reverts.last() == Map::<
            Address,
            RevertedAccount,
        >::empty(),
        ({
            let changes = before.transitions->0;
            retention == BundleRetention::Reverts && changes.contains_key(address) && only_changed(
                changes[address].status,
            ) && changes[address].storage.contains_key(slot)
                && changes[address].storage[slot].changed() ==> {
                &&& after.reverts.last().contains_key(address)
                &&& after.reverts.last()[address].storage.contains_key(slot)
                &&& after.reverts.last()[address].storage[slot] == Some(
                    changes[address].storage[slot].original_value,
                )
            }
        }),
{
    let changes = before.transitions->0;
    if changes.contains_key(address) && only_changed(changes[address].status)
        && changes[address].storage.contains_key(slot) && changes[address].storage[slot].changed() {
        assert(needs_revert(before.bundle, changes, address));
    }
}

} // verus!
