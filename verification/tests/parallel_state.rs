use grevm::account::{
    empty_code_hash, into_owned_transition, into_revm_transition, Account, AccountInfo,
    StorageSlot, Transition,
};
use grevm::cache::{CacheAccountInfo, ParallelCacheState};
use grevm::parallel_state::{ParallelState, StorageSource};
use grevm::primitives::{Address, B256, U256};
use revm_database::states::bundle_state::BundleRetention;
use revm_database::{
    AccountStatus, BundleState, CacheDB, Database, DatabaseCommit, DatabaseCommitExt, DatabaseRef,
    EmptyDB, StateBuilder,
};
use revm_state::bal::BlockAccessIndex;
use revm_state::{Bytecode, EvmState, EvmStorageSlot, TransactionId};
use std::cell::Cell;
use std::convert::Infallible;

type Hook = u32;

fn word(value: u64) -> U256 {
    let mut word = [0; 32];
    word[24..].copy_from_slice(&value.to_be_bytes());
    word
}

fn address_with_last_byte(byte: u8) -> Address {
    let mut address = [0; 20];
    address[19] = byte;
    address
}

fn storage_of<DB: DatabaseRef>(
    state: &mut ParallelState<DB, Hook>,
    address: Address,
    index: U256,
) -> U256 {
    let value = state.db_storage(address, index, |database| {
        database
            .storage_ref(address.into(), revm_primitives::U256::from_be_bytes(index))
            .map(|value| value.to_be_bytes::<32>())
    });
    match value {
        Ok(value) => value,
        Err(_) => panic!("the database does not fail"),
    }
}

fn basic_of<DB: DatabaseRef>(
    state: &mut ParallelState<DB, Hook>,
    address: Address,
) -> Option<AccountInfo> {
    let info = state.db_basic(address, |database| {
        database.basic_ref(address.into()).map(|info| info.map(plain_info))
    });
    match info {
        Ok(info) => info,
        Err(_) => panic!("the database does not fail"),
    }
}

fn plain_info(info: revm_state::AccountInfo) -> AccountInfo {
    AccountInfo {
        balance: info.balance.to_be_bytes(),
        nonce: info.nonce,
        code_hash: info.code_hash.0,
        account_id: info.account_id,
        code: info.code,
    }
}

fn changed_account_state(
    address: Address,
    original_balance: u64,
    present_balance: u64,
    original_storage: u64,
    present_storage: u64,
) -> Vec<(Address, Account)> {
    let original_info =
        AccountInfo { balance: word(original_balance), nonce: 1, ..Default::default() };
    vec![(
        address,
        Account {
            info: AccountInfo { balance: word(present_balance), ..original_info.clone() },
            original_info,
            storage: vec![(
                word(1),
                StorageSlot::new_changed(word(original_storage), word(present_storage)),
            )],
            touched: true,
            created: false,
            selfdestructed: false,
            selfdestructed_locally: false,
            loaded_as_not_existing: false,
        },
    )]
}

fn revm_account_state(
    address: Address,
    original_balance: u64,
    present_balance: u64,
    original_storage: u64,
    present_storage: u64,
) -> EvmState {
    let mut account = revm_state::Account::from(revm_state::AccountInfo {
        balance: revm_primitives::U256::from(original_balance),
        nonce: 1,
        ..Default::default()
    });
    account.info.balance = revm_primitives::U256::from(present_balance);
    account.storage.insert(
        revm_primitives::U256::from(1),
        EvmStorageSlot::new_changed(
            revm_primitives::U256::from(original_storage),
            revm_primitives::U256::from(present_storage),
            TransactionId::new(1).unwrap(),
        ),
    );
    account.mark_touch();
    [(address.into(), account)].into_iter().collect()
}

#[test]
fn storage_ref_reads_uncached_existing_account() {
    let address = address_with_last_byte(1);
    let index = word(2);
    let expected = word(3);
    let mut database = CacheDB::<EmptyDB>::default();
    let account = revm_state::AccountInfo { nonce: 1, ..Default::default() };
    database.insert_account_info(address.into(), account);
    database
        .insert_account_storage(
            address.into(),
            revm_primitives::U256::from_be_bytes(index),
            revm_primitives::U256::from_be_bytes(expected),
        )
        .unwrap();
    let mut state = ParallelState::new(database, false, false);

    assert_eq!(storage_of(&mut state, address, index), expected);
    assert!(state.cache().account(address).is_none());
    assert_eq!(state.cache().slot(address, index).unwrap(), expected);
}

#[test]
fn storage_ref_reads_uncached_nonexistent_account() {
    let address = address_with_last_byte(1);
    let mut state = ParallelState::new(EmptyDB::default(), false, false);

    assert_eq!(storage_of(&mut state, address, word(0)), word(0));
    assert!(state.cache().account(address).is_none());
}

#[test]
fn account_insertions_replace_cached_storage() {
    let address = address_with_last_byte(2);
    let first_slot = word(1);
    let second_slot = word(2);
    let info = AccountInfo { nonce: 1, ..Default::default() };
    let mut state = ParallelState::new(EmptyDB::default(), false, false);

    state.insert_account_with_storage(address, info.clone(), vec![(first_slot, word(10))]);
    assert_eq!(storage_of(&mut state, address, first_slot), word(10));

    state.insert_account(address, info.clone());
    assert_eq!(storage_of(&mut state, address, first_slot), word(0));

    state.insert_account_with_storage(address, info, vec![(second_slot, word(20))]);
    assert_eq!(storage_of(&mut state, address, first_slot), word(0));
    assert_eq!(storage_of(&mut state, address, second_slot), word(20));

    state.insert_not_existing(address);
    assert_eq!(basic_of(&mut state, address), None);
    assert_eq!(storage_of(&mut state, address, second_slot), word(0));
}

#[test]
fn canonical_commit_accepts_state_from_an_uncached_evm() {
    let address = address_with_last_byte(0x22);
    let changes = changed_account_state(address, 7, 9, 3, 4);
    let mut state = ParallelState::new(EmptyDB::default(), true, false);

    state.commit(changes);

    let info = basic_of(&mut state, address).expect("committed account");
    assert_eq!(info.balance, word(9));
    assert_eq!(storage_of(&mut state, address, word(1)), word(4));
}

#[test]
fn taking_bundle_finalizes_pending_transitions_with_revm_semantics() {
    let address = address_with_last_byte(0x24);
    let mut parallel: ParallelState<EmptyDB, Hook> = ParallelState::for_block(EmptyDB::default());
    let mut reference =
        StateBuilder::new().with_database(EmptyDB::default()).with_bundle_update().build();

    parallel.commit(changed_account_state(address, 7, 9, 3, 4));
    reference.commit(revm_account_state(address, 7, 9, 3, 4));
    reference.merge_transitions(BundleRetention::Reverts);

    assert!(parallel.can_merge_transitions());
    let bundle = parallel.take_bundle_with_retention(BundleRetention::Reverts);
    assert_eq!(bundle, reference.take_bundle());
    // Nothing is left.
    assert_eq!(parallel.bundle_size_hint(), 0);
    assert_eq!(parallel.take_transitions().unwrap().transitions.len(), 0);
    assert_eq!(parallel.take_bundle(), BundleState::default());
}

#[test]
fn reverts_are_kept_where_they_are_asked_for() {
    let address = address_with_last_byte(0x27);
    let mut state: ParallelState<EmptyDB, Hook> = ParallelState::for_block(EmptyDB::default());
    state.commit(changed_account_state(address, 7, 9, 3, 4));
    state.merge_transitions(BundleRetention::Reverts);
    state.commit(changed_account_state(address, 9, 10, 4, 5));
    state.merge_transitions(BundleRetention::PlainState);

    let bundle = state.take_bundle();
    assert_eq!(bundle.reverts.len(), 2);
    assert!(bundle.reverts[1].is_empty());
    let (reverted, revert) = &bundle.reverts[0][0];
    assert_eq!(reverted.into_array(), address);
    let slot = revert.storage.get(&revm_primitives::U256::from(1)).unwrap();
    assert_eq!(slot.to_previous_value(), revm_primitives::U256::from(3));
    assert!(!revert.wipe_storage);
    assert_eq!(bundle_balance(&bundle, address), Some(10));
    assert!(state.take_bundle().reverts.is_empty());
}

fn bundle_balance(bundle: &BundleState, address: Address) -> Option<u64> {
    let info = bundle.account(&address.into())?.info.as_ref()?;
    info.balance.try_into().ok()
}

#[test]
fn new_codes_reach_the_bundle_and_destructions_are_undone() {
    let address = address_with_last_byte(0x28);
    let code = Bytecode::new_raw(revm_primitives::Bytes::from(vec![0x60, 0x02]));
    let hash = code.hash_slow();
    let mut state: ParallelState<EmptyDB, Hook> = ParallelState::for_block(EmptyDB::default());
    let mut deployed = touched(
        AccountInfo {
            nonce: 1,
            code_hash: hash.0,
            code: Some(code.clone()),
            ..Default::default()
        },
        vec![(word(1), StorageSlot::new_changed(word(0), word(6)))],
    );
    deployed.original_info = AccountInfo::default();
    deployed.created = true;
    state.commit(vec![(address, deployed)]);
    state.merge_transitions(BundleRetention::PlainState);
    let mut destroyed = touched(AccountInfo::default(), Vec::new());
    destroyed.selfdestructed = true;
    state.commit(vec![(address, destroyed)]);

    let bundle = state.take_bundle_with_retention(BundleRetention::Reverts);
    assert_eq!(bundle.contracts.len(), 1);
    assert_eq!(bundle.contracts.get(&hash), Some(&code));
    assert_eq!(bundle.reverts.len(), 2);
    assert!(bundle.reverts[0].is_empty());
    let (_, revert) = &bundle.reverts[1][0];
    assert!(revert.wipe_storage);
    assert_eq!(revert.previous_status, AccountStatus::InMemoryChange);
    let slot = revert.storage.get(&revm_primitives::U256::from(1)).unwrap();
    assert_eq!(slot.to_previous_value(), revm_primitives::U256::from(6));
    assert_eq!(bundle_balance(&bundle, address), None);
}

#[test]
fn equal_commits_give_equal_access_lists_in_any_order() {
    let first = || changed_account_state(address_with_last_byte(0x51), 1, 2, 3, 4).remove(0);
    let second = || changed_account_state(address_with_last_byte(0x52), 5, 6, 7, 7).remove(0);
    let mut state: ParallelState<EmptyDB, Hook> =
        ParallelState::new(EmptyDB::default(), true, false).with_bal_builder();
    let mut other: ParallelState<u8, Hook> = ParallelState::new(7, false, true).with_bal_builder();
    state.set_bal_index(2);
    other.set_bal_index(2);
    state.commit(vec![first(), second()]);
    other.commit(vec![second(), first()]);
    let list = state.take_built_alloy_bal().unwrap();
    assert_eq!(list.len(), 2);
    assert_eq!(Some(list), other.take_built_alloy_bal());
}

#[test]
fn several_merges_accumulate_in_the_bundle() {
    let address = address_with_last_byte(0x26);
    let mut parallel: ParallelState<EmptyDB, Hook> = ParallelState::for_block(EmptyDB::default());
    let mut reference =
        StateBuilder::new().with_database(EmptyDB::default()).with_bundle_update().build();
    for (from, to, before, after) in [(7, 9, 3, 4), (9, 10, 4, 5)] {
        parallel.commit(changed_account_state(address, from, to, before, after));
        reference.commit(revm_account_state(address, from, to, before, after));
        assert!(parallel.can_merge_transitions());
        parallel.merge_transitions(BundleRetention::PlainState);
        reference.merge_transitions(BundleRetention::PlainState);
        assert_eq!(parallel.bundle_size_hint(), reference.bundle_size_hint());
        assert!(parallel.bundle_size_hint() > 0);
    }
    assert_eq!(parallel.take_bundle(), reference.take_bundle());
    // A state that records no transitions has nothing to merge.
    let mut unrecorded: ParallelState<EmptyDB, Hook> =
        ParallelState::new(EmptyDB::default(), false, false);
    unrecorded.commit(changed_account_state(address, 7, 9, 3, 4));
    assert!(unrecorded.can_merge_transitions());
    unrecorded.merge_transitions(BundleRetention::Reverts);
    assert_eq!(unrecorded.take_bundle(), BundleState::default());
}

#[test]
fn a_change_of_status_that_no_merge_allows_is_found() {
    let address = address_with_last_byte(0x27);
    let transition = |previous_status, status| {
        into_owned_transition(Transition {
            info: Some(AccountInfo::default()),
            status,
            previous_info: Some(AccountInfo::default()),
            previous_status,
            storage: None,
            storage_was_destroyed: false,
        })
    };
    for (previous, status, can) in [
        (AccountStatus::Loaded, AccountStatus::Changed, true),
        (AccountStatus::Destroyed, AccountStatus::Changed, false),
        (AccountStatus::Changed, AccountStatus::InMemoryChange, false),
        (AccountStatus::DestroyedChanged, AccountStatus::Destroyed, false),
        (AccountStatus::Changed, AccountStatus::DestroyedAgain, true),
    ] {
        let mut state: ParallelState<EmptyDB, Hook> = ParallelState::for_block(EmptyDB::default());
        state.apply_transition(vec![(address, transition(previous, status))]);
        assert_eq!(state.can_merge_transitions(), can);
    }
}

#[test]
fn transitions_of_several_commits_merge_with_revm_semantics() {
    let address = address_with_last_byte(0x25);
    // The second commit changes the slot on, the third one sets it back to the first value.
    for commits in 1..4 {
        let mut parallel: ParallelState<EmptyDB, Hook> =
            ParallelState::for_block(EmptyDB::default());
        let mut reference =
            StateBuilder::new().with_database(EmptyDB::default()).with_bundle_update().build();
        let changes = [(7, 9, 3, 4), (9, 10, 4, 5), (10, 11, 5, 3)];
        for (from, to, before, after) in changes.into_iter().take(commits) {
            parallel.commit(changed_account_state(address, from, to, before, after));
            reference.commit(revm_account_state(address, from, to, before, after));
        }
        let transitions = parallel.take_transitions().unwrap();
        assert_eq!(Some(&transitions), reference.transition_state.as_ref());
        let merged = transitions.transitions.get(&revm_primitives::Address::from(address)).unwrap();
        assert_eq!(merged.storage.len(), if commits == 3 { 0 } else { 1 });
        assert_eq!(
            merged.previous_info.as_ref().unwrap().balance,
            revm_primitives::U256::from(7)
        );
        // Nothing is pending any more.
        assert_eq!(parallel.take_transitions().unwrap().transitions.len(), 0);
    }
}

#[test]
fn canonical_cache_only_persists_changed_storage_slots() {
    for created in [false, true] {
        let address = address_with_last_byte(0x40 + u8::from(created));
        let info = AccountInfo {
            balance: word(1),
            nonce: 1,
            code: created.then(Bytecode::default),
            ..Default::default()
        };
        let account = Account {
            info: info.clone(),
            original_info: info,
            storage: vec![
                (word(1), StorageSlot::new_changed(word(2), word(3))),
                (word(4), StorageSlot::new(word(5))),
            ],
            touched: true,
            created,
            selfdestructed: false,
            selfdestructed_locally: false,
            loaded_as_not_existing: false,
        };

        let mut state: ParallelState<EmptyDB, Hook> =
            ParallelState::new(EmptyDB::default(), true, false);
        state.commit(vec![(address, account)]);

        let storage = state.cache().as_cache_state().storage;
        assert_eq!(storage.len(), 1);
        assert_eq!(state.cache().slot(address, word(1)).unwrap(), word(3));
        assert!(state.cache().slot(address, word(4)).is_none());
    }
}

#[test]
fn canonical_state_hook_can_be_suspended_and_restored() {
    let address = address_with_last_byte(0x23);
    let mut observed = 0;
    let mut state = ParallelState::new(EmptyDB::default(), true, false);
    state.set_state_hook(Some(41));

    let hook = state.take_state_hook();
    assert_eq!(hook, Some(41));
    if state.commit(changed_account_state(address, 7, 8, 3, 4)) {
        observed += 1;
    }
    assert_eq!(observed, 0);

    state.set_state_hook(hook);
    if state.commit(changed_account_state(address, 8, 9, 4, 5)) {
        observed += 1;
    }
    assert_eq!(observed, 1);
    assert_eq!(state.take_state_hook(), Some(41));
    assert_eq!(state.take_state_hook(), None);
}

#[test]
fn transitions_are_recorded_only_on_request() {
    let address = address_with_last_byte(0x51);
    let mut state: ParallelState<EmptyDB, Hook> =
        ParallelState::new(EmptyDB::default(), false, true);
    state.commit(changed_account_state(address, 7, 8, 3, 4));
    assert!(state.take_transitions().is_none());
    assert!(state.update_db_metrics());
}

#[test]
fn separately_applied_transitions_are_recorded_as_a_commit_records_them() {
    let address = address_with_last_byte(0x52);
    let mut committed: ParallelState<EmptyDB, Hook> = ParallelState::for_block(EmptyDB::default());
    committed.commit(changed_account_state(address, 7, 8, 3, 4));

    let mut separate: ParallelState<EmptyDB, Hook> = ParallelState::for_block(EmptyDB::default());
    let transitions =
        separate.cache_mut().apply_evm_state(changed_account_state(address, 7, 8, 3, 4));
    assert_eq!(transitions.len(), 1);
    assert_eq!(transitions[0].1.storage.len(), 1);
    separate.apply_transition(transitions);

    assert_eq!(committed.take_transitions(), separate.take_transitions());
}

#[test]
fn block_hashes_are_inserted_replaced_and_read_once() {
    let mut state: ParallelState<Cell<u8>, Hook> =
        ParallelState::new(Cell::new(0), false, false);
    assert_eq!(state.insert_block_hash(7, [1; 32]), None);
    assert_eq!(state.insert_block_hash(7, [2; 32]), Some([1; 32]));
    let read = |database: &Cell<u8>| -> Result<B256, &'static str> {
        database.set(database.get() + 1);
        Ok([database.get(); 32])
    };
    assert_eq!(state.db_block_hash(7, read), Ok([2; 32]));
    assert_eq!(state.db_block_hash(8, read), Ok([1; 32]));
    assert_eq!(state.db_block_hash(8, read), Ok([1; 32]));
    assert_eq!(state.db_block_hash(9, |_| Err("offline")), Err("offline"));
    assert_eq!(state.db_block_hash(9, read), Ok([2; 32]));
    assert_eq!(state.into_database().get(), 2);
}

#[test]
fn reads_are_cached_and_errors_are_not() {
    let address = address_with_last_byte(0x61);
    let mut state: ParallelState<Cell<u64>, Hook> =
        ParallelState::new(Cell::new(0), false, false);
    assert_eq!(state.db_basic(address, |_| Err("offline")), Err("offline"));
    assert_eq!(state.db_storage(address, word(1), |_| Err("offline")), Err("offline"));
    assert_eq!(state.db_code_by_hash([1; 32], |_| Err("offline")), Err("offline"));
    assert!(state.cache().account(address).is_none());

    let info = AccountInfo { nonce: 3, ..Default::default() };
    let loaded = info.clone();
    assert_eq!(
        state.db_basic(address, |_| Ok::<_, &'static str>(Some(loaded))),
        Ok(Some(info.clone()))
    );
    assert_eq!(state.db_basic(address, |_| Err("offline")), Ok(Some(info)));
    assert_eq!(state.db_storage(address, word(1), |_| Ok::<_, &'static str>(word(6))), Ok(word(6)));
    assert_eq!(state.db_storage(address, word(1), |_| Err("offline")), Ok(word(6)));
    let code = Bytecode::new_raw(revm_primitives::Bytes::from(vec![0x60, 0x00]));
    let loaded = code.clone();
    assert_eq!(
        state.db_code_by_hash([1; 32], |_| Ok::<_, &'static str>(loaded)),
        Ok(code.clone())
    );
    assert_eq!(state.db_code_by_hash([1; 32], |_| Err("offline")), Ok(code));
}

#[test]
fn an_empty_account_is_loaded_as_the_default_one() {
    let address = address_with_last_byte(0x62);
    let mut cache = ParallelCacheState::new();
    let odd = AccountInfo { code_hash: [0; 32], code: None, ..Default::default() };
    assert!(odd.is_empty());
    let answer = cache.fill_basic(address, Some(odd)).unwrap();
    assert_eq!(answer.code_hash, empty_code_hash());
    assert_eq!(answer.code, Some(Bytecode::default()));
    assert_eq!(cache.account(address).unwrap().status, AccountStatus::LoadedEmptyEIP161);
    // A fill that comes too late changes nothing.
    assert!(cache.fill_basic(address, None).is_some());
    assert_eq!(cache.lookup_basic(address), Some(Some(AccountInfo::default())));

    let missing = address_with_last_byte(0x63);
    assert_eq!(cache.lookup_basic(missing), None);
    assert_eq!(cache.fill_basic(missing, None), None);
    assert_eq!(cache.lookup_basic(missing), Some(None));
    assert_eq!(cache.lookup_storage(missing, word(1)), StorageSource::Zero);
    assert_eq!(cache.fill_storage(missing, word(1), word(9)), word(9));
    assert_eq!(cache.fill_storage(missing, word(1), word(8)), word(9));
    assert_eq!(cache.lookup_storage(missing, word(1)), StorageSource::Cached(word(9)));
    assert_eq!(
        cache.lookup_storage(address_with_last_byte(0x64), word(1)),
        StorageSource::Database
    );
    let code = Bytecode::new_raw(revm_primitives::Bytes::from(vec![1]));
    assert_eq!(cache.fill_code([3; 32], code.clone()), code);
    assert_eq!(cache.fill_code([3; 32], Bytecode::default()), code);
}

fn touched(info: AccountInfo, storage: Vec<(U256, StorageSlot)>) -> Account {
    Account {
        original_info: info.clone(),
        info,
        storage,
        touched: true,
        created: false,
        selfdestructed: false,
        selfdestructed_locally: false,
        loaded_as_not_existing: false,
    }
}

#[test]
fn destroyed_and_emptied_accounts_lose_their_storage() {
    let address = address_with_last_byte(0x70);
    let other = address_with_last_byte(0x71);
    let info = AccountInfo { nonce: 1, ..Default::default() };
    for selfdestructed in [true, false] {
        let mut cache = ParallelCacheState::new();
        cache.insert_account_with_storage(address, info.clone(), vec![(word(1), word(2))]);
        cache.insert_account_with_storage(other, info.clone(), vec![(word(1), word(3))]);
        let mut account = touched(
            if selfdestructed { info.clone() } else { AccountInfo::default() },
            vec![(word(5), StorageSlot::new_changed(word(0), word(6)))],
        );
        account.selfdestructed = selfdestructed;
        let transition = cache.apply_account_state(address, account).unwrap();
        assert_eq!(transition.status, AccountStatus::Destroyed);
        assert_eq!(transition.previous_info, Some(info.clone()));
        assert!(transition.storage.is_none());
        assert!(transition.storage_was_destroyed);
        assert_eq!(cache.account(address), Some(&CacheAccountInfo::new(None, AccountStatus::Destroyed)));
        assert_eq!(cache.slot(address, word(1)), None);
        assert_eq!(cache.slot(address, word(5)), None);
        assert_eq!(cache.lookup_storage(address, word(1)), StorageSource::Zero);
        // The other account is as before.
        assert_eq!(cache.slot(other, word(1)), Some(word(3)));
    }
}

#[test]
fn an_untouched_account_changes_nothing() {
    let address = address_with_last_byte(0x72);
    let mut cache = ParallelCacheState::new();
    let mut account = touched(
        AccountInfo { nonce: 1, ..Default::default() },
        vec![(word(5), StorageSlot::new_changed(word(0), word(6)))],
    );
    account.touched = false;
    assert!(cache.apply_account_state(address, account).is_none());
    assert!(cache.account(address).is_none());
    assert_eq!(cache.slot(address, word(5)), None);
}

#[test]
fn a_created_account_replaces_storage_and_brings_its_code() {
    let address = address_with_last_byte(0x73);
    let mut cache = ParallelCacheState::new();
    cache.insert_account_with_storage(
        address,
        AccountInfo { balance: word(5), ..Default::default() },
        vec![(word(1), word(2))],
    );
    let code = Bytecode::new_raw(revm_primitives::Bytes::from(vec![0x5b]));
    let info =
        AccountInfo { nonce: 1, code_hash: [7; 32], code: Some(code.clone()), ..Default::default() };
    let mut account =
        touched(info.clone(), vec![(word(3), StorageSlot::new_changed(word(0), word(4)))]);
    account.created = true;
    let transition = cache.apply_account_state(address, account).unwrap();
    assert_eq!(transition.status, AccountStatus::InMemoryChange);
    assert_eq!(transition.previous_status, AccountStatus::Loaded);
    assert_eq!(cache.slot(address, word(1)), None);
    assert_eq!(cache.slot(address, word(3)), Some(word(4)));
    assert_eq!(cache.code([7; 32]), Some(&code));

    // Known code is never replaced.
    let mut again = touched(AccountInfo { code: Some(Bytecode::default()), ..info }, vec![]);
    again.created = true;
    cache.apply_account_state(address_with_last_byte(0x74), again);
    assert_eq!(cache.code([7; 32]), Some(&code));

    let snapshot = cache.as_cache_state();
    assert_eq!(snapshot.accounts.len(), 2);
    assert_eq!(snapshot.storage, vec![(address, word(3), word(4))]);
    assert_eq!(snapshot.contracts, vec![([7; 32], code)]);
}

#[test]
fn account_statuses_follow_the_history_of_an_account() {
    let funded = AccountInfo { balance: word(5), ..Default::default() };
    let used = AccountInfo { nonce: 1, ..Default::default() };
    assert!(funded.has_no_code_and_nonce());
    assert!(!used.has_no_code_and_nonce());

    let mut entry = CacheAccountInfo::from_loaded(Some(funded.clone()));
    assert_eq!(entry.status, AccountStatus::Loaded);
    assert_eq!(entry.change(touched(used.clone(), vec![])).status, AccountStatus::InMemoryChange);

    let mut entry = CacheAccountInfo::from_loaded(Some(used.clone()));
    assert_eq!(entry.change(touched(used.clone(), vec![])).status, AccountStatus::Changed);
    assert_eq!(entry.selfdestruct().unwrap().status, AccountStatus::Destroyed);
    let mut account = touched(used.clone(), vec![]);
    account.created = true;
    let transition = entry.newly_created(account);
    assert_eq!(transition.previous_info, None);
    assert_eq!(transition.status, AccountStatus::DestroyedChanged);
    assert_eq!(entry.touch_empty_eip161().unwrap().status, AccountStatus::DestroyedAgain);
    assert!(entry.touch_empty_eip161().is_none());

    let mut missing = CacheAccountInfo::from_loaded(None);
    assert!(missing.selfdestruct().is_none());
    assert!(missing.touch_empty_eip161().is_none());
    assert_eq!(missing.status, AccountStatus::LoadedNotExisting);
}

#[test]
fn owned_transitions_keep_the_changed_slots() {
    let slots = vec![
        (word(1), StorageSlot::new(word(5))),
        (word(2), StorageSlot::new_changed(word(5), word(6))),
    ];
    let transition = Transition {
        info: None,
        status: AccountStatus::Changed,
        previous_info: None,
        previous_status: AccountStatus::Loaded,
        storage: Some(slots.clone()),
        storage_was_destroyed: false,
    };
    let owned = into_owned_transition(transition);
    assert_eq!(owned.storage, slots[1..].to_vec());
    let back = into_revm_transition(owned);
    assert_eq!(back.storage, Some(slots[1..].to_vec()));
    assert_eq!(into_owned_transition(back).storage, slots[1..].to_vec());
}

#[test]
fn a_destroyed_account_drops_its_pending_slots() {
    let address = address_with_last_byte(0x75);
    let mut parallel: ParallelState<EmptyDB, Hook> = ParallelState::for_block(EmptyDB::default());
    parallel.commit(changed_account_state(address, 7, 9, 3, 4));
    let mut destroyed = changed_account_state(address, 9, 9, 4, 4);
    destroyed[0].1.selfdestructed = true;
    parallel.commit(destroyed);
    let transitions = parallel.take_transitions().unwrap().transitions;
    let merged = transitions.get(&revm_primitives::Address::from(address)).unwrap();
    assert!(merged.storage.is_empty());
    assert!(merged.storage_was_destroyed);
    assert_eq!(merged.info, None);
    assert_eq!(merged.status, AccountStatus::Destroyed);
    assert_eq!(merged.previous_status, AccountStatus::Loaded);
}

#[test]
fn the_block_access_index_is_set_and_bumped() {
    let mut state: ParallelState<u8, Hook> = ParallelState::new(3, true, false);
    assert_eq!(state.bal_index(), 0);
    state.set_bal_index(4);
    state.bump_bal_index();
    assert_eq!(state.bal_index(), 5);
    *state.database_mut() = 9;
    assert_eq!(*state.database(), 9);
}

fn plain_changes(state: &EvmState) -> Vec<(Address, Account)> {
    let plain = |account: &revm_state::Account| Account {
        info: plain_info(account.info.clone()),
        original_info: plain_info(account.original_info()),
        storage: account
            .storage
            .iter()
            .map(|(key, slot)| {
                let slot = StorageSlot::new_changed(
                    slot.original_value.to_be_bytes(),
                    slot.present_value.to_be_bytes(),
                );
                (key.to_be_bytes(), slot)
            })
            .collect(),
        touched: account.is_touched(),
        created: account.is_created(),
        selfdestructed: account.is_selfdestructed(),
        selfdestructed_locally: account.is_selfdestructed_locally(),
        loaded_as_not_existing: account.is_loaded_as_not_existing(),
    };
    state.iter().map(|(address, account)| (address.into_array(), plain(account))).collect()
}

#[test]
fn canonical_commits_match_revm_bal_and_reach_state_hook_once() {
    let address = address_with_last_byte(0x11);
    let blocks = [(10, 11, 1, 1), (11, 14, 1, 2), (14, 15, 2, 2)];

    let mut observed = Vec::new();
    let mut parallel: ParallelState<EmptyDB, Hook> =
        ParallelState::new(EmptyDB::default(), true, false).with_bal_builder();
    parallel.set_state_hook(Some(1));

    let mut reference = StateBuilder::new()
        .with_database(EmptyDB::default())
        .with_bundle_update()
        .with_bal_builder()
        .build();

    for (index, (a, b, c, d)) in blocks.into_iter().enumerate() {
        parallel.set_bal_index(index as u64);
        reference.set_bal_index(BlockAccessIndex::new(index as u64));
        if parallel.commit(changed_account_state(address, a, b, c, d)) {
            observed.push(changed_account_state(address, a, b, c, d));
        }
        reference.commit(revm_account_state(address, a, b, c, d));
    }

    assert_eq!(parallel.take_built_alloy_bal(), reference.take_built_alloy_bal());
    let expected: Vec<_> =
        blocks.iter().map(|&(a, b, c, d)| changed_account_state(address, a, b, c, d)).collect();
    assert_eq!(observed, expected);
}

#[test]
fn the_access_list_holds_each_change_under_its_index() {
    let address = address_with_last_byte(0x12);
    let mut state: ParallelState<EmptyDB, Hook> =
        ParallelState::new(EmptyDB::default(), true, false).with_bal_builder_if(true);
    for (index, (before, after)) in [(10, 11), (11, 14), (14, 14)].into_iter().enumerate() {
        state.set_bal_index(index as u64 + 1);
        state.commit(changed_account_state(address, before, after, 3, 3));
    }

    let list = state.take_built_alloy_bal().unwrap();
    assert_eq!(list.len(), 1);
    assert_eq!(list[0].address.into_array(), address);
    let balances: Vec<_> = list[0]
        .balance_changes
        .iter()
        .map(|change| (change.block_access_index.get(), change.post_balance.to_be_bytes()))
        .collect();
    assert_eq!(balances, [(1, word(11)), (2, word(14))]);
    assert!(list[0].nonce_changes.is_empty());
    assert!(list[0].code_changes.is_empty());
    assert!(list[0].storage_changes.is_empty());
    assert_eq!(list[0].storage_reads, [revm_primitives::U256::from(1)]);

    assert_eq!(state.bal_index(), 0);
    assert!(state.take_built_alloy_bal().is_none());
}

#[test]
fn a_value_restored_under_one_index_leaves_no_access() {
    let address = address_with_last_byte(0x13);
    let mut state: ParallelState<EmptyDB, Hook> =
        ParallelState::new(EmptyDB::default(), true, false).with_bal_builder();
    state.commit(changed_account_state(address, 10, 11, 1, 2));
    state.commit(changed_account_state(address, 10, 10, 1, 1));

    let list = state.take_built_alloy_bal().unwrap();
    assert!(list[0].balance_changes.is_empty());
    assert!(list[0].storage_changes.is_empty());
    assert_eq!(list[0].storage_reads, [revm_primitives::U256::from(1)]);
}

#[test]
fn no_access_list_is_built_unless_asked_for() {
    let mut state: ParallelState<EmptyDB, Hook> =
        ParallelState::new(EmptyDB::default(), true, false).with_bal_builder_if(false);
    state.set_bal_index(3);
    state.commit(changed_account_state(address_with_last_byte(0x14), 1, 2, 3, 4));
    assert!(state.take_built_alloy_bal().is_none());
    assert_eq!(state.bal_index(), 0);
}

#[test]
fn reads_codes_and_destructions_match_the_revm_access_list() {
    let slot = |key: u64, original: u64, present: u64| {
        let values =
            (revm_primitives::U256::from(original), revm_primitives::U256::from(present));
        let slot = EvmStorageSlot::new_changed(values.0, values.1, TransactionId::ZERO);
        (revm_primitives::U256::from(key), slot)
    };
    let code = Bytecode::new_raw(revm_primitives::Bytes::from(vec![0x60, 0x01]));

    let read_only = revm_state::Account::from(revm_state::AccountInfo {
        nonce: 7,
        ..Default::default()
    });
    let mut deployed = revm_state::Account::default();
    deployed.info.nonce = 1;
    deployed.info.code_hash = code.hash_slow();
    deployed.info.code = Some(code);
    deployed.storage = [slot(1, 0, 5), slot(2, 0, 0)].into_iter().collect();
    deployed.mark_touch();
    deployed.mark_created();
    let mut destroyed = deployed.clone();
    destroyed.set_current_info_as_original();
    destroyed.storage = [slot(1, 5, 9), slot(3, 4, 4)].into_iter().collect();
    destroyed.unmark_created();
    destroyed.mark_selfdestructed_locally();
    let mut unloaded = revm_state::Account::default();
    unloaded.info.code_hash = revm_primitives::B256::repeat_byte(3);
    unloaded.info.code = None;
    unloaded.mark_touch();

    let at = |byte: u8| revm_primitives::Address::from(address_with_last_byte(byte));
    let outputs: [EvmState; 3] = [
        [(at(0x31), read_only), (at(0x30), deployed)].into_iter().collect(),
        [(at(0x30), destroyed)].into_iter().collect(),
        [(at(0x32), unloaded)].into_iter().collect(),
    ];

    let mut state: ParallelState<EmptyDB, Hook> =
        ParallelState::new(EmptyDB::default(), true, false).with_bal_builder();
    let mut reference = revm::database_interface::bal::BalState::new().with_bal_builder();
    for output in &outputs {
        state.commit(plain_changes(output));
        reference.commit(output);
        state.bump_bal_index();
        reference.bump_bal_index();
    }

    let list = state.take_built_alloy_bal().unwrap();
    assert_eq!(list.len(), 3);
    assert_eq!(list[0].code_changes.len(), 2);
    assert_eq!(list[0].storage_changes.len(), 2);
    assert_eq!(list[0].storage_reads, [revm_primitives::U256::from(2)]);
    assert_eq!(list[1].nonce_changes.len(), 0);
    assert_eq!(list[2].code_changes.len(), 1);
    assert_eq!(Some(list), reference.take_built_alloy_bal());
}

/// The state as a database that commits reach.
struct Canonical {
    state: ParallelState<EmptyDB, Hook>,
    observed: Vec<EvmState>,
}

impl Database for Canonical {
    type Error = Infallible;

    fn basic(
        &mut self,
        address: revm_primitives::Address,
    ) -> Result<Option<revm_state::AccountInfo>, Infallible> {
        let info = basic_of(&mut self.state, address.into_array());
        Ok(info.map(|info| revm_state::AccountInfo {
            balance: revm_primitives::U256::from_be_bytes(info.balance),
            nonce: info.nonce,
            code_hash: info.code_hash.into(),
            account_id: info.account_id,
            code: info.code,
        }))
    }

    fn code_by_hash(&mut self, _: revm_primitives::B256) -> Result<Bytecode, Infallible> {
        Ok(Bytecode::default())
    }

    fn storage(
        &mut self,
        address: revm_primitives::Address,
        index: revm_primitives::U256,
    ) -> Result<revm_primitives::U256, Infallible> {
        let value = storage_of(&mut self.state, address.into_array(), index.to_be_bytes());
        Ok(revm_primitives::U256::from_be_bytes(value))
    }

    fn block_hash(&mut self, _: u64) -> Result<revm_primitives::B256, Infallible> {
        Ok(revm_primitives::B256::ZERO)
    }
}

impl DatabaseCommit for Canonical {
    fn commit(&mut self, changes: EvmState) {
        if self.state.commit(plain_changes(&changes)) {
            self.observed.push(changes);
        }
    }
}

#[test]
fn balance_increments_use_the_canonical_bal_and_hook_commit_path() {
    let address = address_with_last_byte(0x33);
    let info = AccountInfo { balance: word(5), nonce: 1, ..Default::default() };

    let mut state = ParallelState::new(EmptyDB::default(), true, false).with_bal_builder();
    state.insert_account(address, info);
    state.set_state_hook(Some(1));
    let mut parallel = Canonical { state, observed: Vec::new() };

    let mut reference = StateBuilder::new()
        .with_database(EmptyDB::default())
        .with_bundle_update()
        .with_bal_builder()
        .build();
    let info = revm_state::AccountInfo {
        balance: revm_primitives::U256::from(5),
        nonce: 1,
        ..Default::default()
    };
    reference.insert_account(address.into(), info);

    parallel.increment_balances([(address.into(), 8)]).unwrap();
    reference.increment_balances([(address.into(), 8)]).unwrap();

    assert_eq!(parallel.state.take_built_alloy_bal(), reference.take_built_alloy_bal());
    assert_eq!(parallel.observed.len(), 1);
    assert_eq!(basic_of(&mut parallel.state, address).unwrap().balance, word(13));
}
