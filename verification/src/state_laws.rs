//! What commits and reads do to a state, told by the values that go in and come out.

use crate::account::{Account, AccountInfo, OwnedTransition, StorageSlot, Transition};
use crate::bundle::{mergeable, merged_accounts};
use crate::cache::{
    holds_something, lives_on, owned_from, values_written, CacheAccountInfo, CacheView,
};
use crate::parallel_state::{listed, StateView, StorageSource};
use crate::primitives::{
    account_key_spec, code_key_spec, slot_key_spec, zero_word_spec, Address, Key, B256, U256,
};
use crate::transitions::PendingTransition;
use revm_database::states::bundle_state::BundleRetention;
use revm_database::AccountStatus;
use revm_state::Bytecode;
use vstd::prelude::*;

verus! {

/// The output names the address at `position` and nowhere else.
pub open spec fn named_only_at(changes: Seq<(Address, Account)>, position: int) -> bool {
    &&& 0 <= position < changes.len()
    &&& forall|i: int|
        0 <= i < changes.len() && i != position ==> (#[trigger] changes[i]).0
            != changes[position].0
}

/// The account lists the slot at `position` and nowhere else.
pub open spec fn slot_only_at(slots: Seq<(U256, StorageSlot)>, position: int) -> bool {
    &&& 0 <= position < slots.len()
    &&& forall|i: int|
        0 <= i < slots.len() && i != position ==> (#[trigger] slots[i]).0 != slots[position].0
}

/// The account does not list the slot.
pub open spec fn slot_unlisted(slots: Seq<(U256, StorageSlot)>, slot: U256) -> bool {
    forall|i: int| 0 <= i < slots.len() ==> (#[trigger] slots[i]).0 != slot
}

/// The transition that a commit records for an address that the output names once.
proof fn lemma_recorded<DB, H>(
    before: StateView<DB, H>,
    changes: Seq<(Address, Account)>,
    after: StateView<DB, H>,
    position: int,
) -> (around: (CacheView, CacheView, Option<Transition>))
    requires
        before.commits(changes, after),
        before.transitions is Some,
        named_only_at(changes, position),
    ensures
        around.0.same_at(before.cache, changes[position].0),
        around.0.applies(changes[position].0, changes[position].1, around.1, around.2),
        after.cache.same_at(around.1, changes[position].0),
        after.transitions is Some,
        ({
            let address = changes[position].0;
            let old_pending = before.transitions->0;
            let new_pending = after.transitions->0;
            match around.2 {
                None => {
                    &&& new_pending.contains_key(address) == old_pending.contains_key(address)
                    &&& old_pending.contains_key(address) ==> new_pending[address]
                        == old_pending[address]
                },
                Some(transition) => {
                    &&& new_pending.contains_key(address)
                    &&& new_pending[address] == if old_pending.contains_key(address) {
                        old_pending[address].merged(transition)
                    } else {
                        PendingTransition::first(transition)
                    }
                },
            }
        }),
{
    let address = changes[position].0;
    let transitions = choose|transitions: Seq<(Address, Transition)>|
        #[trigger] before.cache.applies_all(changes, after.cache, transitions)
            && after == (StateView { cache: after.cache, ..before.with_accessed(changes) }).recorded(
                transitions,
            );
    let around = crate::cache::lemma_one_entry_decides(
        before.cache,
        changes,
        after.cache,
        transitions,
        position,
    );
    match around.2 {
        None => {
            crate::transitions::law_other_accounts_stay_as_they_are(
                before.transitions->0,
                transitions,
                address,
            );
        },
        Some(transition) => {
            let at = choose|at: int|
                0 <= at < transitions.len() && #[trigger] transitions[at] == (address, transition)
                    && forall|i: int|
                    0 <= i < transitions.len() && i != at ==> (#[trigger] transitions[i]).0
                        != address;
            crate::transitions::law_transition_reaches_its_account(
                before.transitions->0,
                transitions,
                at,
            );
        },
    }
    around
}

/// What was known of the account before the change: the cached entry, or else what the execution
/// that changed it had loaded.
pub open spec fn known_before(
    accounts: Map<Key, CacheAccountInfo>,
    address: Address,
    account: Account,
    info: Option<AccountInfo>,
    status: AccountStatus,
) -> bool {
    if accounts.contains_key(account_key_spec(address)) {
        &&& info == accounts[account_key_spec(address)].account
        &&& status == accounts[account_key_spec(address)].status
    } else if account.loaded_as_not_existing {
        &&& info is None
        &&& status == AccountStatus::LoadedNotExisting
    } else if holds_something(account.original_info) {
        &&& info == Some(account.original_info)
        &&& status == AccountStatus::Loaded
    } else {
        &&& info is Some
        &&& !holds_something(info->0)
        &&& status == AccountStatus::LoadedEmptyEIP161
    }
}

/// Every touched account that exists after a commit is pending with balance, nonce and code as the
/// output has them; and with what was known of it before: before its first change, if it was
/// pending already, and before this commit if not.
pub proof fn law_commit_records_every_account<DB, H>(
    before: StateView<DB, H>,
    changes: Seq<(Address, Account)>,
    after: StateView<DB, H>,
    position: int,
)
    requires
        before.commits(changes, after),
        before.transitions is Some,
        named_only_at(changes, position),
        changes[position].1.touched,
        lives_on(changes[position].1),
    ensures
        after.transitions is Some,
        ({
            let (address, account) = changes[position];
            let pending = after.transitions->0;
            &&& pending.contains_key(address)
            &&& pending[address].info == Some(account.info)
            &&& if before.transitions->0.contains_key(address) {
                let earlier = before.transitions->0[address];
                &&& pending[address].previous_info == earlier.previous_info
                &&& pending[address].previous_status == earlier.previous_status
                &&& pending[address].storage_was_destroyed == earlier.storage_was_destroyed
            } else {
                &&& known_before(
                    before.cache.accounts,
                    address,
                    account,
                    pending[address].previous_info,
                    pending[address].previous_status,
                )
                &&& !pending[address].storage_was_destroyed
            }
        }),
{
    let around = lemma_recorded(before, changes, after, position);
    assert(around.0.account(changes[position].0) == before.cache.account(changes[position].0));
}

/// Of a touched account that exists after a commit, every listed slot whose value changed is
/// pending with its new value, unless the new value is the one from before the first pending
/// change: then it is no longer pending. It keeps the value from before the first change. Every
/// other slot is pending as it was.
pub proof fn law_commit_records_every_slot<DB, H>(
    before: StateView<DB, H>,
    changes: Seq<(Address, Account)>,
    after: StateView<DB, H>,
    position: int,
    slot: U256,
)
    requires
        before.commits(changes, after),
        before.transitions is Some,
        named_only_at(changes, position),
        changes[position].1.touched,
        lives_on(changes[position].1),
    ensures
        after.transitions is Some,
        after.transitions->0.contains_key(changes[position].0),
        ({
            let (address, account) = changes[position];
            let was_pending = before.transitions->0.contains_key(address)
                && before.transitions->0[address].storage.contains_key(slot);
            let earlier = before.transitions->0[address].storage[slot];
            let now = after.transitions->0[address].storage;
            let slots = account.storage@;
            &&& slot_unlisted(slots, slot) ==> {
                &&& now.contains_key(slot) == was_pending
                &&& was_pending ==> now[slot] == earlier
            }
            &&& forall|at: int|
                slot_only_at(slots, at) && (#[trigger] slots[at]).0 == slot ==> {
                    let value = slots[at].1;
                    if value.original_value == value.present_value {
                        &&& now.contains_key(slot) == was_pending
                        &&& was_pending ==> now[slot] == earlier
                    } else if was_pending {
                        &&& now.contains_key(slot) <==> earlier.original_value
                            != value.present_value
                        &&& now.contains_key(slot) ==> now[slot].original_value
                            == earlier.original_value && now[slot].present_value
                            == value.present_value
                    } else {
                        &&& now.contains_key(slot)
                        &&& now[slot] == value
                    }
                }
        }),
{
    let around = lemma_recorded(before, changes, after, position);
    assert(around.2 is Some);
    crate::transitions::law_changed_slots_are_listed(around.2->0, slot);
}

/// A touched account that a commit destroyed is pending as missing, with its storage destroyed and
/// no slot left, if it existed as far as anyone knew; one that never existed is not pending on that
/// account.
pub proof fn law_commit_records_destroyed_accounts<DB, H>(
    before: StateView<DB, H>,
    changes: Seq<(Address, Account)>,
    after: StateView<DB, H>,
    position: int,
)
    requires
        before.commits(changes, after),
        before.transitions is Some,
        named_only_at(changes, position),
        changes[position].1.touched,
        !lives_on(changes[position].1),
    ensures
        after.transitions is Some,
        ({
            let (address, account) = changes[position];
            let cached = before.cache.accounts.contains_key(account_key_spec(address));
            let entry = before.cache.accounts[account_key_spec(address)];
            let never_existed = if cached {
                entry.status == AccountStatus::LoadedNotExisting
            } else {
                account.loaded_as_not_existing
            };
            let gone_already = cached && (entry.status == AccountStatus::Destroyed || entry.status
                == AccountStatus::DestroyedAgain);
            let old_pending = before.transitions->0;
            let pending = after.transitions->0;
            if never_existed || (gone_already && !account.selfdestructed) {
                &&& pending.contains_key(address) == old_pending.contains_key(address)
                &&& old_pending.contains_key(address) ==> pending[address] == old_pending[address]
            } else {
                &&& pending.contains_key(address)
                &&& pending[address].info is None
                &&& pending[address].storage == Map::<U256, StorageSlot>::empty()
                &&& pending[address].storage_was_destroyed
                &&& pending[address].status == AccountStatus::Destroyed || pending[address].status
                    == AccountStatus::DestroyedAgain
                &&& if old_pending.contains_key(address) {
                    &&& pending[address].previous_info == old_pending[address].previous_info
                    &&& pending[address].previous_status == old_pending[address].previous_status
                } else {
                    known_before(
                        before.cache.accounts,
                        address,
                        account,
                        pending[address].previous_info,
                        pending[address].previous_status,
                    )
                }
            }
        }),
{
    let around = lemma_recorded(before, changes, after, position);
    assert(around.0.account(changes[position].0) == before.cache.account(changes[position].0));
}

/// A commit leaves what is pending for every address as it was that the output does not name or has
/// not touched, and records nothing where transitions are not recorded.
pub proof fn law_commit_leaves_other_transitions<DB, H>(
    before: StateView<DB, H>,
    changes: Seq<(Address, Account)>,
    after: StateView<DB, H>,
    address: Address,
)
    requires
        before.commits(changes, after),
        (forall|i: int| 0 <= i < changes.len() ==> (#[trigger] changes[i]).0 != address) || exists|
            position: int,
        |
            #[trigger] named_only_at(changes, position) && changes[position].0 == address
                && !changes[position].1.touched,
    ensures
        before.transitions is None <==> after.transitions is None,
        before.transitions is Some ==> {
            &&& after.transitions->0.contains_key(address)
                == before.transitions->0.contains_key(address)
            &&& before.transitions->0.contains_key(address) ==> after.transitions->0[address]
                == before.transitions->0[address]
        },
        after.bundle == before.bundle,
        after.reverts == before.reverts,
        after.codes == before.codes,
        after.update_db_metrics == before.update_db_metrics,
{
    if before.transitions is Some {
        if forall|i: int| 0 <= i < changes.len() ==> (#[trigger] changes[i]).0 != address {
            let transitions = choose|transitions: Seq<(Address, Transition)>|
                #[trigger] before.cache.applies_all(changes, after.cache, transitions) && after == (
                StateView { cache: after.cache, ..before.with_accessed(changes) }).recorded(
                    transitions,
                );
            crate::cache::law_other_addresses_are_unaffected(
                before.cache,
                changes,
                after.cache,
                transitions,
                address,
            );
            crate::transitions::law_other_accounts_stay_as_they_are(
                before.transitions->0,
                transitions,
                address,
            );
        } else {
            let position = choose|position: int|
                #[trigger] named_only_at(changes, position) && changes[position].0 == address
                    && !changes[position].1.touched;
            let around = lemma_recorded(before, changes, after, position);
        }
    }
}

/// After a commit, what is pending for a touched account agrees with what the cache holds for it:
/// the same balance, nonce and code and the same status, if the commit recorded anything for it.
pub proof fn law_pending_agrees_with_the_cache<DB, H>(
    before: StateView<DB, H>,
    changes: Seq<(Address, Account)>,
    after: StateView<DB, H>,
    position: int,
)
    requires
        before.commits(changes, after),
        before.transitions is Some,
        named_only_at(changes, position),
        changes[position].1.touched,
        lives_on(changes[position].1) || !before.transitions->0.contains_key(changes[position].0),
    ensures
        after.transitions is Some,
        after.cache.accounts.contains_key(account_key_spec(changes[position].0)),
        after.transitions->0.contains_key(changes[position].0) ==> {
            let entry = after.cache.accounts[account_key_spec(changes[position].0)];
            let pending = after.transitions->0[changes[position].0];
            pending.info == entry.account && pending.status == entry.status
        },
{
    let address = changes[position].0;
    let around = lemma_recorded(before, changes, after, position);
    assert(after.cache.account(address) == around.1.account(address));
}

/// How a commit moves the status of a touched account. A created one is wholly in memory; so is a
/// changed one that the database did not have, had empty, or had without nonce and code. A changed
/// one with nonce or code in the database stays bound to it. An account that was ever destroyed
/// stays marked as such, and one that never existed is not marked when it is cleared.
pub proof fn law_commit_moves_the_status<DB, H>(
    before: StateView<DB, H>,
    changes: Seq<(Address, Account)>,
    after: StateView<DB, H>,
    position: int,
    info: Option<AccountInfo>,
    status: AccountStatus,
)
    requires
        before.commits(changes, after),
        named_only_at(changes, position),
        changes[position].1.touched,
        known_before(
            before.cache.accounts,
            changes[position].0,
            changes[position].1,
            info,
            status,
        ),
    ensures
        after.cache.accounts.contains_key(account_key_spec(changes[position].0)),
        ({
            let account = changes[position].1;
            let now = after.cache.accounts[account_key_spec(changes[position].0)].status;
            let was_destroyed = status == AccountStatus::Destroyed || status
                == AccountStatus::DestroyedChanged || status == AccountStatus::DestroyedAgain;
            if lives_on(account) {
                now == if was_destroyed {
                    AccountStatus::DestroyedChanged
                } else if !account.created && (status == AccountStatus::Changed || (status
                    == AccountStatus::Loaded && !(info is Some && info->0.nonce == 0
                    && info->0.code_hash == crate::account::keccak_empty()))) {
                    AccountStatus::Changed
                } else {
                    AccountStatus::InMemoryChange
                }
            } else if status == AccountStatus::LoadedNotExisting {
                now == AccountStatus::LoadedNotExisting
            } else if status == AccountStatus::DestroyedChanged || status
                == AccountStatus::DestroyedAgain {
                now == AccountStatus::DestroyedAgain
            } else if status == AccountStatus::Destroyed {
                now == if account.selfdestructed {
                    AccountStatus::DestroyedAgain
                } else {
                    AccountStatus::Destroyed
                }
            } else {
                now == AccountStatus::Destroyed
            }
        }),
{
    let address = changes[position].0;
    let transitions = choose|transitions: Seq<(Address, Transition)>|
        #[trigger] before.cache.applies_all(changes, after.cache, transitions)
            && after == (StateView { cache: after.cache, ..before.with_accessed(changes) }).recorded(
                transitions,
            );
    let around = crate::cache::lemma_one_entry_decides(
        before.cache,
        changes,
        after.cache,
        transitions,
        position,
    );
    assert(after.cache.account(address) == around.1.account(address));
    assert(around.0.account(address) == before.cache.account(address));
}

/// After a commit the cache knows the code of every account that it created: the one known before,
/// or else one that an account of the output was created with.
pub proof fn law_created_code_is_known(
    before: CacheView,
    changes: Seq<(Address, Account)>,
    after: CacheView,
    transitions: Seq<(Address, Transition)>,
    hash: B256,
)
    requires
        before.applies_all(changes, after, transitions),
    ensures
        ({
            let key = code_key_spec(hash);
            let creates = |p: int|
                0 <= p < changes.len() && changes[p].1.touched && !changes[p].1.selfdestructed
                    && changes[p].1.created && changes[p].1.info.code_hash == hash;
            &&& forall|p: int| #[trigger] creates(p) ==> after.contracts.contains_key(key)
            &&& before.contracts.contains_key(key) ==> after.contracts.contains_key(key)
                && after.contracts[key] == before.contracts[key]
            &&& !before.contracts.contains_key(key) && after.contracts.contains_key(key)
                ==> exists|p: int| #[trigger]
                creates(p) && after.contracts[key] == changes[p].1.info.code->0
        }),
    decreases changes.len(),
{
    let key = code_key_spec(hash);
    let creates = |p: int|
        0 <= p < changes.len() && changes[p].1.touched && !changes[p].1.selfdestructed
            && changes[p].1.created && changes[p].1.info.code_hash == hash;
    if changes.len() > 0 {
        let (middle, earlier, last) = choose|
            middle: CacheView,
            earlier: Seq<(Address, Transition)>,
            last: Option<Transition>,
        |
            before.applies_all(changes.drop_last(), middle, earlier)
                && #[trigger] middle.applies_after(
                changes.last(),
                after,
                earlier,
                last,
                transitions,
            );
        law_created_code_is_known(before, changes.drop_last(), middle, earlier, hash);
        let rest = changes.drop_last();
        let created = |p: int|
            0 <= p < rest.len() && rest[p].1.touched && !rest[p].1.selfdestructed
                && rest[p].1.created && rest[p].1.info.code_hash == hash;
        let end = changes.len() - 1;
        assert forall|p: int| #[trigger] creates(p) implies after.contracts.contains_key(key) by {
            if p < end {
                assert(rest[p] == changes[p]);
                assert(created(p));
            }
        }
        if !before.contracts.contains_key(key) && after.contracts.contains_key(key) {
            if middle.contracts.contains_key(key) {
                let p = choose|p: int| #[trigger]
                    created(p) && middle.contracts[key] == rest[p].1.info.code->0;
                assert(rest[p] == changes[p]);
                assert(creates(p));
            } else {
                assert(creates(end));
            }
        }
    }
}

/// An account read that misses the cache answers with what the database gave: the account with the
/// same balance, nonce, code hash and code; no account where there is none; and an account without
/// balance, nonce and code for an empty one.
pub proof fn law_missing_account_is_answered_by_the_database(
    before: CacheView,
    address: Address,
    info: Option<AccountInfo>,
    after: CacheView,
    answer: Option<AccountInfo>,
)
    requires
        before.fills_account(address, info, after, answer),
        !before.accounts.contains_key(account_key_spec(address)),
    ensures
        answer is Some <==> info is Some,
        info is Some ==> {
            &&& answer->0.balance == info->0.balance
            &&& answer->0.nonce == info->0.nonce
        },
        info is Some && holds_something(info->0) ==> {
            &&& answer->0.code_hash == info->0.code_hash
            &&& answer->0.code == info->0.code
            &&& answer->0.account_id == info->0.account_id
        },
        info is Some && !holds_something(info->0) ==> {
            &&& answer->0.code_hash == crate::account::keccak_empty()
            &&& answer->0.code is Some
            &&& crate::account::code_bytes(answer->0.code->0).len() == 0
        },
        after.accounts.dom() == before.accounts.dom().insert(account_key_spec(address)),
        after.accounts[account_key_spec(address)].account == answer,
        after.accounts[account_key_spec(address)].status == if info is None {
            AccountStatus::LoadedNotExisting
        } else if holds_something(info->0) {
            AccountStatus::Loaded
        } else {
            AccountStatus::LoadedEmptyEIP161
        },
{
}

/// An account read that hits the cache answers with the cached account, whatever the database has,
/// and leaves the cache as it is.
pub proof fn law_cached_account_is_answered_by_the_cache(
    before: CacheView,
    address: Address,
    info: Option<AccountInfo>,
    after: CacheView,
    answer: Option<AccountInfo>,
)
    requires
        before.fills_account(address, info, after, answer),
        before.accounts.contains_key(account_key_spec(address)),
    ensures
        answer == before.accounts[account_key_spec(address)].account,
        after == before,
{
}

/// A slot that is cached is read from the cache. One that is not is read from the database, unless
/// the account is cached as missing or as wholly in memory: a cached account that exists and was
/// only loaded, or changed without leaving the database, leaves its other slots to the database.
pub proof fn law_slots_come_from_where_they_are(cache: CacheView, address: Address, slot: U256)
    ensures
        ({
            let source = cache.storage_source(address, slot);
            let account_key = account_key_spec(address);
            let slot_key = slot_key_spec(address, slot);
            let entry = cache.accounts[account_key];
            &&& cache.storage.contains_key(slot_key) ==> source == StorageSource::Cached(
                cache.storage[slot_key],
            )
            &&& !cache.storage.contains_key(slot_key) && !cache.accounts.contains_key(account_key)
                ==> source == StorageSource::Database
            &&& !cache.storage.contains_key(slot_key) && cache.accounts.contains_key(account_key)
                && entry.account is Some && (entry.status == AccountStatus::Loaded || entry.status
                == AccountStatus::LoadedEmptyEIP161 || entry.status == AccountStatus::Changed)
                ==> source == StorageSource::Database
            &&& !cache.storage.contains_key(slot_key) && cache.accounts.contains_key(account_key)
                && (entry.account is None || entry.status == AccountStatus::LoadedNotExisting
                || entry.status == AccountStatus::InMemoryChange || entry.status
                == AccountStatus::Destroyed || entry.status == AccountStatus::DestroyedChanged
                || entry.status == AccountStatus::DestroyedAgain) ==> source == StorageSource::Zero
        }),
{
}

/// Loading an account that exists, or that is not there, does not hide its slots: a slot that the
/// database answered before the account was cached is still answered by the database where the
/// database has the account, and is zero where it has none.
pub proof fn law_loading_an_account_keeps_its_slots(
    before: CacheView,
    address: Address,
    info: Option<AccountInfo>,
    after: CacheView,
    answer: Option<AccountInfo>,
    slot: U256,
)
    requires
        before.fills_account(address, info, after, answer),
        !before.accounts.contains_key(account_key_spec(address)),
    ensures
        info is Some ==> after.storage_source(address, slot) == before.storage_source(address, slot),
        info is None && !before.storage.contains_key(slot_key_spec(address, slot))
            ==> after.storage_source(address, slot) == StorageSource::Zero,
        forall|other: Address, index: U256|
            other != address ==> #[trigger] after.storage_source(other, index)
                == before.storage_source(other, index),
{
    assert forall|other: Address, index: U256| other != address implies #[trigger]
        after.storage_source(other, index) == before.storage_source(other, index) by {
        assert(after.account(other) == before.account(other));
        assert(after.slot(other, index) == before.slot(other, index));
    }
}

/// A commit that neither creates, destroys nor empties an account with nonce or code leaves the
/// source of every slot of it as it was that it does not write: a cached slot stays cached with its
/// value, and one that the database answers is still answered by the database.
pub proof fn law_ordinary_change_keeps_slot_sources<DB, H>(
    before: StateView<DB, H>,
    changes: Seq<(Address, Account)>,
    after: StateView<DB, H>,
    position: int,
    slot: U256,
    info: Option<AccountInfo>,
    status: AccountStatus,
)
    requires
        before.commits(changes, after),
        named_only_at(changes, position),
        lives_on(changes[position].1),
        !changes[position].1.created,
        known_before(
            before.cache.accounts,
            changes[position].0,
            changes[position].1,
            info,
            status,
        ),
        info is Some,
        info->0.nonce > 0 || info->0.code_hash != crate::account::keccak_empty(),
        status != AccountStatus::LoadedEmptyEIP161,
        slot_unlisted(changes[position].1.storage@, slot) || exists|at: int|
            #[trigger] slot_only_at(changes[position].1.storage@, at)
                && changes[position].1.storage@[at].0 == slot
                && changes[position].1.storage@[at].1.original_value
                == changes[position].1.storage@[at].1.present_value,
    ensures
        after.cache.storage_source(changes[position].0, slot) == before.cache.storage_source(
            changes[position].0,
            slot,
        ),
{
    let (address, account) = changes[position];
    let transitions = choose|transitions: Seq<(Address, Transition)>|
        #[trigger] before.cache.applies_all(changes, after.cache, transitions)
            && after == (StateView { cache: after.cache, ..before.with_accessed(changes) }).recorded(
                transitions,
            );
    let around = crate::cache::lemma_one_entry_decides(
        before.cache,
        changes,
        after.cache,
        transitions,
        position,
    );
    assert(after.cache.account(address) == around.1.account(address));
    assert(after.cache.slot(address, slot) == around.1.slot(address, slot));
    assert(around.0.account(address) == before.cache.account(address));
    assert(around.0.slot(address, slot) == before.cache.slot(address, slot));
    if account.touched {
        crate::cache::law_only_changed_slots_persist(
            around.0,
            address,
            account,
            around.1,
            around.2,
            slot,
        );
        lemma_unchanged_is_not_written(account.storage@, slot);
    }
}

/// A slot that a list does not name, or names once without a change, is not written.
proof fn lemma_unchanged_is_not_written(slots: Seq<(U256, StorageSlot)>, slot: U256)
    requires
        forall|i: int|
            0 <= i < slots.len() && (#[trigger] slots[i]).0 == slot ==> slots[i].1.original_value
                == slots[i].1.present_value,
    ensures
        crate::cache::written_value(slots, slot) is None,
    decreases slots.len(),
{
    if slots.len() > 0 {
        assert forall|i: int|
            0 <= i < slots.drop_last().len() && (#[trigger] slots.drop_last()[i]).0
                == slot implies slots.drop_last()[i].1.original_value
            == slots.drop_last()[i].1.present_value by {
            assert(slots.drop_last()[i] == slots[i]);
        }
        assert(slots.last() == slots[slots.len() - 1]);
        lemma_unchanged_is_not_written(slots.drop_last(), slot);
    }
}

/// After a commit, a slot that a touched account which lives on lists with a new value is cached
/// with that value; one that it lists without a change, or does not list, is cached as it was if
/// the account was not created, and reads zero if it was.
pub proof fn law_commit_caches_the_slots<DB, H>(
    before: StateView<DB, H>,
    changes: Seq<(Address, Account)>,
    after: StateView<DB, H>,
    position: int,
    slot: U256,
)
    requires
        before.commits(changes, after),
        named_only_at(changes, position),
        changes[position].1.touched,
        lives_on(changes[position].1),
    ensures
        ({
            let (address, account) = changes[position];
            let key = slot_key_spec(address, slot);
            let slots = account.storage@;
            &&& after.cache.accounts.contains_key(account_key_spec(address))
            &&& after.cache.accounts[account_key_spec(address)].account == Some(account.info)
            &&& forall|at: int|
                slot_only_at(slots, at) && (#[trigger] slots[at]).0 == slot
                    && slots[at].1.original_value != slots[at].1.present_value
                    ==> after.cache.storage.contains_key(key) && after.cache.storage[key]
                    == slots[at].1.present_value
            &&& (forall|i: int|
                0 <= i < slots.len() && (#[trigger] slots[i]).0 == slot
                    ==> slots[i].1.original_value == slots[i].1.present_value) ==> if account.created {
                &&& !after.cache.storage.contains_key(key)
                &&& after.cache.storage_source(address, slot) == StorageSource::Zero
            } else {
                &&& after.cache.storage.contains_key(key) == before.cache.storage.contains_key(key)
                &&& before.cache.storage.contains_key(key) ==> after.cache.storage[key]
                    == before.cache.storage[key]
            }
        }),
{
    let (address, account) = changes[position];
    let slots = account.storage@;
    let transitions = choose|transitions: Seq<(Address, Transition)>|
        #[trigger] before.cache.applies_all(changes, after.cache, transitions)
            && after == (StateView { cache: after.cache, ..before.with_accessed(changes) }).recorded(
                transitions,
            );
    let around = crate::cache::lemma_one_entry_decides(
        before.cache,
        changes,
        after.cache,
        transitions,
        position,
    );
    assert(after.cache.account(address) == around.1.account(address));
    assert(after.cache.slot(address, slot) == around.1.slot(address, slot));
    assert(around.0.slot(address, slot) == before.cache.slot(address, slot));
    crate::cache::law_only_changed_slots_persist(
        around.0,
        address,
        account,
        around.1,
        around.2,
        slot,
    );
    assert forall|at: int|
        slot_only_at(slots, at) && (#[trigger] slots[at]).0 == slot && slots[at].1.original_value
            != slots[at].1.present_value implies around.1.slot(address, slot) == Some(
        slots[at].1.present_value,
    ) by {
        crate::cache::law_changed_slot_reads_back(
            around.0,
            address,
            account,
            around.1,
            around.2,
            at,
        );
    }
    if forall|i: int|
        0 <= i < slots.len() && (#[trigger] slots[i]).0 == slot ==> slots[i].1.original_value
            == slots[i].1.present_value {
        lemma_unchanged_is_not_written(slots, slot);
    }
}

/// A touched account that a commit destroyed is cached as missing, and none of its slots is cached.
pub proof fn law_commit_clears_destroyed_accounts<DB, H>(
    before: StateView<DB, H>,
    changes: Seq<(Address, Account)>,
    after: StateView<DB, H>,
    position: int,
    slot: U256,
)
    requires
        before.commits(changes, after),
        named_only_at(changes, position),
        changes[position].1.touched,
        !lives_on(changes[position].1),
    ensures
        after.cache.accounts.contains_key(account_key_spec(changes[position].0)),
        after.cache.accounts[account_key_spec(changes[position].0)].account is None,
        !after.cache.storage.contains_key(slot_key_spec(changes[position].0, slot)),
        after.cache.storage_source(changes[position].0, slot) == StorageSource::Zero,
{
    let (address, account) = changes[position];
    let transitions = choose|transitions: Seq<(Address, Transition)>|
        #[trigger] before.cache.applies_all(changes, after.cache, transitions)
            && after == (StateView { cache: after.cache, ..before.with_accessed(changes) }).recorded(
                transitions,
            );
    let around = crate::cache::lemma_one_entry_decides(
        before.cache,
        changes,
        after.cache,
        transitions,
        position,
    );
    assert(after.cache.account(address) == around.1.account(address));
    assert(after.cache.slot(address, slot) == around.1.slot(address, slot));
}

/// Values that are written to the slots of an account read back, the last one of each slot; every
/// other slot is as before.
pub proof fn law_written_values_read_back(
    storage: Map<Key, U256>,
    address: Address,
    values: Seq<(U256, U256)>,
    key: Key,
)
    ensures
        ({
            let after = values_written(storage, address, values);
            &&& forall|p: int|
                0 <= p < values.len() && key == slot_key_spec(address, (#[trigger] values[p]).0) && (
                forall|i: int| p < i < values.len() ==> (#[trigger] values[i]).0 != values[p].0)
                    ==> after.contains_key(key) && after[key] == values[p].1
            &&& (forall|i: int|
                0 <= i < values.len() ==> slot_key_spec(address, (#[trigger] values[i]).0) != key) ==> {
                &&& after.contains_key(key) == storage.contains_key(key)
                &&& storage.contains_key(key) ==> after[key] == storage[key]
            }
        }),
    decreases values.len(),
{
    if values.len() > 0 {
        let rest = values.drop_last();
        let end = values.len() - 1;
        law_written_values_read_back(storage, address, rest, key);
        let after = values_written(storage, address, values);
        assert forall|p: int|
            0 <= p < values.len() && key == slot_key_spec(address, (#[trigger] values[p]).0) && (
            forall|i: int|
                p < i < values.len() ==> (#[trigger] values[i]).0 != values[p].0) implies after.contains_key(
            key,
        ) && after[key] == values[p].1 by {
            if p < end {
                assert(rest[p] == values[p]);
                assert(values[end].0 != values[p].0);
                assert forall|i: int| p < i < rest.len() implies (#[trigger] rest[i]).0
                    != rest[p].0 by {
                    assert(rest[i] == values[i]);
                }
            }
        }
        if forall|i: int|
            0 <= i < values.len() ==> slot_key_spec(address, (#[trigger] values[i]).0) != key {
            assert forall|i: int| 0 <= i < rest.len() implies slot_key_spec(
                address,
                (#[trigger] rest[i]).0,
            ) != key by {
                assert(rest[i] == values[i]);
            }
            assert(slot_key_spec(address, values[end].0) != key);
        }
    }
}

/// Transitions that are added to a state reach the accounts that they name: one named once is
/// pending with the account and the status that its transition leads to.
pub proof fn law_applied_transitions_are_pending<DB, H>(
    before: StateView<DB, H>,
    transitions: Seq<(Address, OwnedTransition)>,
    at: int,
)
    requires
        0 <= at < transitions.len(),
        forall|i: int|
            0 <= i < transitions.len() && i != at ==> (#[trigger] transitions[i]).0
                != transitions[at].0,
    ensures
        ({
            let after = before.recorded(listed(transitions));
            let (address, transition) = transitions[at];
            &&& before.transitions is None ==> after == before
            &&& after == (StateView { transitions: after.transitions, ..before })
            &&& before.transitions is Some ==> {
                &&& after.transitions is Some
                &&& after.transitions->0.contains_key(address)
                &&& after.transitions->0[address].info == transition.info
                &&& after.transitions->0[address].status == transition.status
                &&& !before.transitions->0.contains_key(address) ==> {
                    &&& after.transitions->0[address].previous_info == transition.previous_info
                    &&& after.transitions->0[address].previous_status
                        == transition.previous_status
                    &&& after.transitions->0[address].storage_was_destroyed
                        == transition.storage_was_destroyed
                }
            }
        }),
{
    if before.transitions is Some {
        let all = listed(transitions);
        assert forall|i: int| 0 <= i < all.len() && i != at implies (#[trigger] all[i]).0
            != all[at].0 by {
            assert(transitions[i].0 != transitions[at].0);
        }
        crate::transitions::law_transition_reaches_its_account(before.transitions->0, all, at);
    }
}

/// Every change that a commit records can be merged into a bundle that stands where the change
/// starts, or where an earlier change of the same account started, as long as no account is created
/// anew that a bundle holds as changed.
pub proof fn law_committed_changes_can_be_merged(
    before: CacheView,
    address: Address,
    account: Account,
    after: CacheView,
    transition: Option<Transition>,
    start: AccountStatus,
)
    requires
        before.applies(address, account, after, transition),
        transition is Some,
        start == transition->0.previous_status || (mergeable(
            start,
            transition->0.previous_status,
        ) && transition->0.previous_status != AccountStatus::Loaded
            && transition->0.previous_status != AccountStatus::LoadedEmptyEIP161
            && transition->0.previous_status != AccountStatus::LoadedNotExisting),
        !(start == AccountStatus::Changed && account.created && !account.selfdestructed),
    ensures
        mergeable(start, transition->0.status),
{
}

/// A merge is refused where it would take an account that was destroyed, or that is wholly in
/// memory, back to one bound to the database; or one that was destroyed to one that was not; or one
/// that changed to one that is wholly in memory.
pub proof fn law_impossible_merges_are_refused(destroyed: AccountStatus)
    requires
        destroyed == AccountStatus::Destroyed || destroyed == AccountStatus::DestroyedChanged
            || destroyed == AccountStatus::DestroyedAgain,
    ensures
        !mergeable(destroyed, AccountStatus::Changed),
        !mergeable(destroyed, AccountStatus::InMemoryChange),
        !mergeable(destroyed, AccountStatus::Destroyed),
        !mergeable(AccountStatus::InMemoryChange, AccountStatus::Changed),
        !mergeable(AccountStatus::LoadedNotExisting, AccountStatus::Changed),
        !mergeable(AccountStatus::Changed, AccountStatus::InMemoryChange),
{
}

/// A merge empties the pending transitions, takes their accounts into the bundle with the reverts
/// and codes that go with them, and leaves everything else as it is; where transitions are not
/// recorded it does nothing.
pub proof fn law_merge_empties_the_transitions<DB, H>(
    before: StateView<DB, H>,
    retention: BundleRetention,
    after: StateView<DB, H>,
)
    requires
        before.merges_into(retention, after),
    ensures
        before.transitions is None ==> after == before,
        before.transitions is Some ==> {
            &&& after.transitions is Some
            &&& after.transitions->0.dom() == Set::<Address>::empty()
            &&& after.bundle == merged_accounts(before.bundle, before.transitions->0)
            &&& after.reverts.len() == before.reverts.len() + 1
            &&& after.reverts.drop_last() == before.reverts
        },
        after.cache == before.cache,
        after.database == before.database,
        after.block_hashes == before.block_hashes,
        after.bal_index == before.bal_index,
        after.access_list == before.access_list,
        after.state_hook == before.state_hook,
        after.update_db_metrics == before.update_db_metrics,
{
    if before.transitions is Some {
        assert(after.reverts.drop_last() =~= before.reverts);
    }
}

/// A new state knows nothing but its database: nothing is cached, pending or bundled. It records
/// transitions exactly if it was asked to.
pub proof fn law_new_state_is_empty<DB, H>(
    database: DB,
    with_bundle_update: bool,
    update_db_metrics: bool,
    address: Address,
    slot: U256,
)
    ensures
        ({
            let state = StateView::<DB, H>::fresh(database, with_bundle_update, update_db_metrics);
            &&& state.database == database
            &&& state.update_db_metrics == update_db_metrics
            &&& state.transitions is Some <==> with_bundle_update
            &&& state.transitions is Some ==> !state.transitions->0.contains_key(address)
            &&& !state.cache.accounts.contains_key(account_key_spec(address))
            &&& state.cache.storage_source(address, slot) == StorageSource::Database
            &&& !state.cache.contracts.contains_key(code_key_spec(slot))
            &&& !state.bundle.contains_key(address)
            &&& state.reverts.len() == 0
            &&& !state.codes.contains_key(slot)
            &&& state.block_hashes.dom() == Set::<Key>::empty()
            &&& state.bal_index == 0
            &&& state.access_list is None
            &&& state.state_hook is None
        }),
{
}

/// After a commit that builds a block access list, the changes listed for an account that the
/// output names once end with what the output left: its nonce, its balance, and the value of every
/// slot that it lists once; those of an empty account if it destroyed itself. Where no change is
/// listed, the value is the one from before the execution.
pub proof fn law_commit_lists_what_it_left<DB, H>(
    before: StateView<DB, H>,
    changes: Seq<(Address, Account)>,
    after: StateView<DB, H>,
    position: int,
    at: int,
)
    requires
        before.commits(changes, after),
        before.access_list is Some,
        crate::access_list::names_once(changes),
        0 <= position < changes.len(),
        slot_only_at(changes[position].1.storage@, at),
    ensures
        after.access_list is Some,
        ({
            let (address, account) = changes[position];
            let access = after.access_list->0[address];
            let (slot, value) = account.storage@[at];
            let gone = account.selfdestructed_locally;
            let nonce = if gone {
                0
            } else {
                account.info.nonce
            };
            let balance = if gone {
                zero_word_spec()
            } else {
                account.info.balance
            };
            let present = if gone {
                zero_word_spec()
            } else {
                value.present_value
            };
            &&& after.access_list->0.contains_key(address)
            &&& access.nonce.len() > 0 ==> access.nonce.last().1 == nonce
            &&& access.nonce.len() == 0 ==> account.original_info.nonce == nonce
            &&& access.balance.len() > 0 ==> access.balance.last().1 == balance
            &&& access.balance.len() == 0 ==> account.original_info.balance == balance
            &&& access.storage.contains_key(slot)
            &&& access.storage[slot].len() > 0 ==> access.storage[slot].last().1 == present
            &&& access.storage[slot].len() == 0 ==> value.original_value == present
        }),
{
    let (address, account) = changes[position];
    crate::access_list::law_output_decides_the_access(
        before.access_list->0,
        before.bal_index,
        changes,
        position,
    );
    crate::transitions::law_slot_listed_once_is_mapped(account.storage@, at);
}

/// A copy of the cached accounts lists an account exactly if it is cached, with what is cached; a
/// copy of the slots lists a slot exactly if it is cached and its account is cached as existing;
/// and a copy of the codes lists a code exactly if it is cached.
pub proof fn law_copies_hold_what_is_cached(
    cache: CacheView,
    accounts: Seq<(Address, CacheAccountInfo)>,
    storage: Seq<(Address, U256, U256)>,
    contracts: Seq<(B256, Bytecode)>,
    address: Address,
    slot: U256,
    hash: B256,
)
    requires
        cache.lists_accounts(accounts),
        cache.lists_storage(storage),
        cache.lists_contracts(contracts),
    ensures
        cache.accounts.contains_key(account_key_spec(address)) <==> exists|i: int|
            0 <= i < accounts.len() && (#[trigger] accounts[i]).0 == address,
        forall|i: int|
            0 <= i < accounts.len() && (#[trigger] accounts[i]).0 == address ==> accounts[i].1
                == cache.accounts[account_key_spec(address)],
        cache.storage.contains_key(slot_key_spec(address, slot)) && cache.accounts.contains_key(
            account_key_spec(address),
        ) && cache.accounts[account_key_spec(address)].account is Some <==> exists|i: int|
            0 <= i < storage.len() && (#[trigger] storage[i]).0 == address && storage[i].1 == slot,
        forall|i: int|
            0 <= i < storage.len() && (#[trigger] storage[i]).0 == address && storage[i].1 == slot
                ==> storage[i].2 == cache.storage[slot_key_spec(address, slot)],
        cache.contracts.contains_key(code_key_spec(hash)) <==> exists|i: int|
            0 <= i < contracts.len() && (#[trigger] contracts[i]).0 == hash,
        forall|i: int|
            0 <= i < contracts.len() && (#[trigger] contracts[i]).0 == hash ==> contracts[i].1
                == cache.contracts[code_key_spec(hash)],
{
    if cache.accounts.contains_key(account_key_spec(address)) {
        assert(cache.account(address) is Some);
    }
    if cache.storage.contains_key(slot_key_spec(address, slot)) && cache.accounts.contains_key(
        account_key_spec(address),
    ) && cache.accounts[account_key_spec(address)].account is Some {
        assert(cache.exists_at(address));
        assert(cache.slot(address, slot) is Some);
    }
    if exists|i: int| 0 <= i < contracts.len() && (#[trigger] contracts[i]).0 == hash {
        let i = choose|i: int| 0 <= i < contracts.len() && (#[trigger] contracts[i]).0 == hash;
        assert(cache.contracts.contains_pair(code_key_spec(contracts[i].0), contracts[i].1));
    }
}

/// Taking the bundle leaves none: no account, no revert and no code; everything else stays.
pub proof fn law_taken_bundle_leaves_none<DB, H>(
    before: StateView<DB, H>,
    address: Address,
    hash: B256,
)
    ensures
        ({
            let after = before.without_bundle();
            &&& !after.bundle.contains_key(address)
            &&& after.reverts.len() == 0
            &&& !after.codes.contains_key(hash)
            &&& after.cache == before.cache
            &&& after.database == before.database
            &&& after.transitions == before.transitions
            &&& after.block_hashes == before.block_hashes
            &&& after.bal_index == before.bal_index
            &&& after.access_list == before.access_list
            &&& after.state_hook == before.state_hook
            &&& after.update_db_metrics == before.update_db_metrics
        }),
{
}

/// A transition handed out with only its changed slots is otherwise the transition itself.
pub proof fn law_owned_transition_is_the_transition(
    owned: OwnedTransition,
    transition: Transition,
    entry: (U256, StorageSlot),
)
    requires
        owned_from(owned, transition),
    ensures
        owned.info == transition.info,
        owned.status == transition.status,
        owned.previous_info == transition.previous_info,
        owned.previous_status == transition.previous_status,
        owned.storage_was_destroyed == transition.storage_was_destroyed,
        transition.storage is None ==> owned.storage@.len() == 0,
        transition.storage is Some ==> (owned.storage@.contains(entry)
            <==> transition.storage->0@.contains(entry) && entry.1.original_value
            != entry.1.present_value),
{
    if transition.storage is Some {
        crate::account::law_changed_slots_are_kept(transition.storage->0@, entry);
    }
}

/// A code read answers with the cached code if there is one, and with what the database gave if
/// not; either way that is the code cached afterwards, and nothing else changes.
pub proof fn law_code_read_answers_what_is_known(
    before: CacheView,
    hash: B256,
    code: Bytecode,
    after: CacheView,
    answer: Bytecode,
)
    requires
        before.fills_code(hash, code, after, answer),
    ensures
        before.contracts.contains_key(code_key_spec(hash)) ==> answer
            == before.contracts[code_key_spec(hash)],
        !before.contracts.contains_key(code_key_spec(hash)) ==> answer == code,
        after.contracts.contains_key(code_key_spec(hash)),
        after.contracts[code_key_spec(hash)] == answer,
        forall|other: Key|
            other != code_key_spec(hash) ==> (#[trigger] after.contracts.contains_key(other))
                == before.contracts.contains_key(other) && (before.contracts.contains_key(other)
                ==> after.contracts[other] == before.contracts[other]),
        after.accounts == before.accounts,
        after.storage == before.storage,
{
}

/// A slot read answers with the cached value if there is one, and with the given one if not; either
/// way that is the value cached afterwards, and nothing else changes.
pub proof fn law_slot_read_answers_what_is_known(
    before: CacheView,
    address: Address,
    index: U256,
    value: U256,
    after: CacheView,
    answer: U256,
)
    requires
        before.fills_slot(address, index, value, after, answer),
    ensures
        ({
            let key = slot_key_spec(address, index);
            &&& before.storage.contains_key(key) ==> answer == before.storage[key]
            &&& !before.storage.contains_key(key) ==> answer == value
            &&& after.storage.contains_key(key)
            &&& after.storage[key] == answer
            &&& forall|other: Key|
                other != key ==> (#[trigger] after.storage.contains_key(other))
                    == before.storage.contains_key(other) && (before.storage.contains_key(other)
                    ==> after.storage[other] == before.storage[other])
            &&& after.accounts == before.accounts
            &&& after.contracts == before.contracts
        }),
{
}

/// Outputs are applied account by account: what comes of an output is what comes of its last
/// account after all the others, and the transitions are those of the others and then its own, if
/// it has one.
pub proof fn law_accounts_are_applied_one_after_the_other(
    before: CacheView,
    changes: Seq<(Address, Account)>,
    after: CacheView,
    transitions: Seq<(Address, Transition)>,
) -> (around: (CacheView, Seq<(Address, Transition)>, Option<Transition>))
    requires
        before.applies_all(changes, after, transitions),
        changes.len() > 0,
    ensures
        before.applies_all(changes.drop_last(), around.0, around.1),
        around.0.applies(changes.last().0, changes.last().1, after, around.2),
        around.2 is None ==> transitions == around.1,
        around.2 is Some ==> {
            &&& transitions.len() == around.1.len() + 1
            &&& transitions.last() == (changes.last().0, around.2->0)
            &&& forall|i: int| 0 <= i < around.1.len() ==> #[trigger] transitions[i] == around.1[i]
        },
{
    let (middle, earlier, last) = choose|
        middle: CacheView,
        earlier: Seq<(Address, Transition)>,
        last: Option<Transition>,
    |
        before.applies_all(changes.drop_last(), middle, earlier)
            && #[trigger] middle.applies_after(
            changes.last(),
            after,
            earlier,
            last,
            transitions,
        );
    (middle, earlier, last)
}

/// What applying one touched account leaves of it in the cache, whatever is cached of the others:
/// the account of the output with its status if it lives on, and none if not.
pub proof fn law_applied_account_is_cached(
    before: CacheView,
    address: Address,
    account: Account,
    after: CacheView,
    transition: Option<Transition>,
)
    requires
        before.applies(address, account, after, transition),
    ensures
        !account.touched ==> after == before && transition is None,
        account.touched ==> after.accounts.contains_key(account_key_spec(address)),
        account.touched && lives_on(account) ==> {
            &&& transition is Some
            &&& after.accounts[account_key_spec(address)].account == Some(account.info)
            &&& after.accounts[account_key_spec(address)].status == transition->0.status
            &&& transition->0.info == Some(account.info)
        },
        account.touched && !lives_on(account) ==> {
            &&& after.accounts[account_key_spec(address)].account is None
            &&& transition is Some ==> transition->0.info is None
            &&& transition is Some ==> after.accounts[account_key_spec(address)].status
                == transition->0.status
        },
        forall|other: Key|
            other != account_key_spec(address) ==> (#[trigger] after.accounts.contains_key(other))
                == before.accounts.contains_key(other) && (before.accounts.contains_key(other)
                ==> after.accounts[other] == before.accounts[other]),
{
}

/// Whether the pending changes can be merged is decided account by account: from the status that
/// the bundle holds of it, or else from the one before its pending changes.
pub proof fn law_merges_are_decided_by_account<DB, H>(state: StateView<DB, H>)
    ensures
        state.transitions is None ==> state.mergeable(),
        state.transitions is Some ==> (state.mergeable() <==> forall|address: Address| #[trigger]
            state.transitions->0.contains_key(address) ==> mergeable(
                if state.bundle.contains_key(address) {
                    state.bundle[address].status
                } else {
                    state.transitions->0[address].previous_status
                },
                state.transitions->0[address].status,
            )),
{
}

/// What a commit leaves pending in a state with nothing pending and an empty bundle can be merged,
/// as long as no account is created anew that is cached as changed.
pub proof fn law_committed_output_can_be_merged<DB, H>(
    before: StateView<DB, H>,
    changes: Seq<(Address, Account)>,
    after: StateView<DB, H>,
)
    requires
        before.commits(changes, after),
        before.transitions is Some,
        before.transitions->0 == Map::<Address, PendingTransition>::empty(),
        before.bundle.dom() == Set::<Address>::empty(),
        crate::access_list::names_once(changes),
        forall|p: int|
            0 <= p < changes.len() && (#[trigger] changes[p]).1.created ==> {
                let key = account_key_spec(changes[p].0);
                before.cache.accounts.contains_key(key) ==> before.cache.accounts[key].status
                    != AccountStatus::Changed
            },
    ensures
        after.mergeable(),
{
    let pending = after.transitions->0;
    assert forall|address: Address| #[trigger] pending.contains_key(address) implies mergeable(
        if after.bundle.contains_key(address) {
            after.bundle[address].status
        } else {
            pending[address].previous_status
        },
        pending[address].status,
    ) by {
        assert(!before.bundle.dom().contains(address));
        if exists|p: int| 0 <= p < changes.len() && (#[trigger] changes[p]).0 == address {
            let p = choose|p: int| 0 <= p < changes.len() && (#[trigger] changes[p]).0 == address;
            assert(named_only_at(changes, p));
            let around = lemma_recorded(before, changes, after, p);
            assert(around.0.account(address) == before.cache.account(address));
            law_committed_changes_can_be_merged(
                around.0,
                address,
                changes[p].1,
                around.1,
                around.2,
                around.2->0.previous_status,
            );
        } else {
            law_commit_leaves_other_transitions(before, changes, after, address);
        }
    }
}

} // verus!
