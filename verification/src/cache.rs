//! The account cache shared by speculative workers and the ordered commit path.

use crate::account::{
    into_owned_transition, keccak_empty, only_changed, status_on_changed, status_on_created,
    status_on_selfdestructed, status_on_touched_empty, Account, AccountInfo, OwnedTransition,
    SlotChanges, StorageSlot, Transition,
};
use crate::primitives::{
    account_key, account_key_spec, code_key, code_key_spec, slot_key, slot_key_spec,
    zero_word_spec, Address, Key, B256, U256,
};
use crate::table::Table;
use revm_database::AccountStatus;
use revm_state::Bytecode;
use vstd::prelude::*;

verus! {

/// What the cache knows about an account.
#[derive(Debug, PartialEq, Eq)]
pub struct CacheAccountInfo {
    /// Balance, nonce and code, if the account exists.
    pub account: Option<AccountInfo>,
    /// How the account relates to the database.
    pub status: AccountStatus,
}

impl Clone for CacheAccountInfo {
    fn clone(&self) -> (copy: Self)
        ensures
            copy == *self,
    {
        CacheAccountInfo {
            account: match &self.account {
                Some(info) => Some(info.clone()),
                None => None,
            },
            status: self.status,
        }
    }
}

impl CacheAccountInfo {
    /// The entry for an account as the database has it: a missing one, an empty one, which is
    /// replaced by the one that stands for all empty accounts, or any other.
    pub open spec fn is_loaded_from(self, info: Option<AccountInfo>) -> bool {
        match info {
            None => self == (CacheAccountInfo {
                account: None,
                status: AccountStatus::LoadedNotExisting,
            }),
            Some(info) => if info.empty() {
                &&& self.status == AccountStatus::LoadedEmptyEIP161
                &&& self.account matches Some(empty) && empty.is_default()
            } else {
                self == (CacheAccountInfo { account: Some(info), status: AccountStatus::Loaded })
            },
        }
    }

    /// After the account destroyed itself.
    pub open spec fn selfdestructed(self) -> CacheAccountInfo {
        CacheAccountInfo { account: None, status: status_on_selfdestructed(self.status) }
    }

    /// The transition of an account that destroyed itself; none for one that never existed.
    pub open spec fn selfdestruct_transition(self) -> Option<Transition> {
        if self.status == AccountStatus::LoadedNotExisting {
            None
        } else {
            Some(
                Transition {
                    info: None,
                    status: status_on_selfdestructed(self.status),
                    previous_info: self.account,
                    previous_status: self.status,
                    storage: None,
                    storage_was_destroyed: true,
                },
            )
        }
    }

    /// After the account was created.
    pub open spec fn created(self, account: Account) -> CacheAccountInfo {
        CacheAccountInfo {
            account: Some(account.info),
            status: status_on_created(self.status),
        }
    }

    /// The transition of a created account.
    pub open spec fn created_transition(self, account: Account) -> Transition {
        Transition {
            info: Some(account.info),
            status: status_on_created(self.status),
            previous_info: self.account,
            previous_status: self.status,
            storage: Some(account.storage),
            storage_was_destroyed: false,
        }
    }

    /// After the account was touched while empty.
    pub open spec fn touched_empty(self) -> CacheAccountInfo {
        CacheAccountInfo { account: None, status: status_on_touched_empty(self.status) }
    }

    /// The transition of an account touched while empty; none for one that does not exist anyway.
    pub open spec fn touched_empty_transition(self) -> Option<Transition> {
        match self.status {
            AccountStatus::LoadedNotExisting | AccountStatus::Destroyed
            | AccountStatus::DestroyedAgain => None,
            _ => Some(
                Transition {
                    info: None,
                    status: status_on_touched_empty(self.status),
                    previous_info: self.account,
                    previous_status: self.status,
                    storage: None,
                    storage_was_destroyed: true,
                },
            ),
        }
    }

    /// The account existed without nonce and code.
    pub open spec fn had_no_nonce_and_code(self) -> bool {
        self.account matches Some(info) && info.no_code_and_nonce()
    }

    /// After the account was changed.
    pub open spec fn changed(self, account: Account) -> CacheAccountInfo {
        CacheAccountInfo {
            account: Some(account.info),
            status: status_on_changed(self.status, self.had_no_nonce_and_code()),
        }
    }

    /// The transition of a changed account.
    pub open spec fn changed_transition(self, account: Account) -> Transition {
        Transition {
            info: Some(account.info),
            status: status_on_changed(self.status, self.had_no_nonce_and_code()),
            previous_info: self.account,
            previous_status: self.status,
            storage: Some(account.storage),
            storage_was_destroyed: false,
        }
    }

    /// An entry.
    pub fn new(account: Option<AccountInfo>, status: AccountStatus) -> (info: Self)
        ensures
            info == (CacheAccountInfo { account, status }),
    {
        CacheAccountInfo { account, status }
    }

    /// The entry for an account as the database has it.
    pub fn from_loaded(info: Option<AccountInfo>) -> (entry: Self)
        ensures
            entry.is_loaded_from(info),
            info is None ==> entry.account is None && entry.status
                == AccountStatus::LoadedNotExisting,
            info is Some && holds_something(info->0) ==> entry.account == info && entry.status
                == AccountStatus::Loaded,
            info is Some && !holds_something(info->0) ==> entry.account is Some
                && !holds_something(entry.account->0) && entry.status
                == AccountStatus::LoadedEmptyEIP161,
    {
        match info {
            None => CacheAccountInfo::new(None, AccountStatus::LoadedNotExisting),
            Some(info) => {
                if info.is_empty() {
                    CacheAccountInfo::new(
                        Some(AccountInfo::default()),
                        AccountStatus::LoadedEmptyEIP161,
                    )
                } else {
                    CacheAccountInfo::new(Some(info), AccountStatus::Loaded)
                }
            },
        }
    }

    /// Marks the account as destroyed.
    pub fn selfdestruct(&mut self) -> (transition: Option<Transition>)
        ensures
            *final(self) == old(self).selfdestructed(),
            transition == old(self).selfdestruct_transition(),
    {
        let previous_info = self.account.take();
        let previous_status = self.status;
        self.status = self.status.on_selfdestructed();
        match previous_status {
            AccountStatus::LoadedNotExisting => None,
            _ => Some(
                Transition {
                    info: None,
                    status: self.status,
                    previous_info,
                    previous_status,
                    storage: None,
                    storage_was_destroyed: true,
                },
            ),
        }
    }

    /// Replaces the account by a newly created one.
    pub fn newly_created(&mut self, account: Account) -> (transition: Transition)
        ensures
            *final(self) == old(self).created(account),
            transition == old(self).created_transition(account),
    {
        let previous_info = self.account.take();
        let previous_status = self.status;
        let Account { info, storage, .. } = account;
        self.status = self.status.on_created();
        let transition = Transition {
            info: Some(info.clone()),
            status: self.status,
            previous_info,
            previous_status,
            storage: Some(storage),
            storage_was_destroyed: false,
        };
        self.account = Some(info);
        transition
    }

    /// Clears an account that was touched while empty.
    pub fn touch_empty_eip161(&mut self) -> (transition: Option<Transition>)
        ensures
            *final(self) == old(self).touched_empty(),
            transition == old(self).touched_empty_transition(),
    {
        let previous_info = self.account.take();
        let previous_status = self.status;
        self.status = self.status.on_touched_empty_post_eip161();
        match previous_status {
            AccountStatus::LoadedNotExisting | AccountStatus::Destroyed
            | AccountStatus::DestroyedAgain => None,
            _ => Some(
                Transition {
                    info: None,
                    status: self.status,
                    previous_info,
                    previous_status,
                    storage: None,
                    storage_was_destroyed: true,
                },
            ),
        }
    }

    /// Replaces the account by its changed version.
    pub fn change(&mut self, account: Account) -> (transition: Transition)
        ensures
            *final(self) == old(self).changed(account),
            transition == old(self).changed_transition(account),
    {
        let previous_info = self.account.take();
        let previous_status = self.status;
        let Account { info, storage, .. } = account;
        let had_no_nonce_and_code: bool = match &previous_info {
            Some(previous) => previous.has_no_code_and_nonce(),
            None => false,
        };
        self.status = self.status.on_changed(had_no_nonce_and_code);
        let transition = Transition {
            info: Some(info.clone()),
            status: self.status,
            previous_info,
            previous_status,
            storage: Some(storage),
            storage_was_destroyed: false,
        };
        self.account = Some(info);
        transition
    }
}

/// The account has a balance, a nonce or code.
pub open spec fn holds_something(info: AccountInfo) -> bool {
    info.balance != zero_word_spec() || info.nonce > 0 || (info.code_hash != keccak_empty()
        && info.code_hash != zero_word_spec())
}

/// The account exists after an execution that left it like this: it did not destroy itself, and it
/// was created or has a balance, a nonce or code.
pub open spec fn lives_on(account: Account) -> bool {
    !account.selfdestructed && (account.created || holds_something(account.info))
}

/// The keys that belong to an address.
pub open spec fn keys_of(address: Address) -> Set<Key> {
    Set::new(|key: Key| key.1 == address)
}

/// The storage after the changed ones of some slots of an address were written.
pub open spec fn slots_written(
    storage: Map<Key, U256>,
    address: Address,
    slots: Seq<(U256, StorageSlot)>,
) -> Map<Key, U256>
    decreases slots.len(),
{
    if slots.len() == 0 {
        storage
    } else {
        let earlier = slots_written(storage, address, slots.drop_last());
        let (slot, value) = slots.last();
        if value.changed() {
            earlier.insert(slot_key_spec(address, slot), value.present_value)
        } else {
            earlier
        }
    }
}

/// The mathematical content of a [`ParallelCacheState`].
#[verifier::ext_equal]
pub struct CacheView {
    /// What is known about accounts.
    pub accounts: Map<Key, CacheAccountInfo>,
    /// The known storage slots.
    pub storage: Map<Key, U256>,
    /// The known contract codes.
    pub contracts: Map<Key, Bytecode>,
}

impl CacheView {
    /// What is known about an account.
    pub open spec fn account(self, address: Address) -> Option<CacheAccountInfo> {
        if self.accounts.contains_key(account_key_spec(address)) {
            Some(self.accounts[account_key_spec(address)])
        } else {
            None
        }
    }

    /// The known value of a slot.
    pub open spec fn slot(self, address: Address, slot: U256) -> Option<U256> {
        if self.storage.contains_key(slot_key_spec(address, slot)) {
            Some(self.storage[slot_key_spec(address, slot)])
        } else {
            None
        }
    }

    /// With another entry for an account.
    pub open spec fn with_account(self, address: Address, info: CacheAccountInfo) -> CacheView {
        CacheView { accounts: self.accounts.insert(account_key_spec(address), info), ..self }
    }

    /// Without any slot of an address.
    pub open spec fn without_storage(self, address: Address) -> CacheView {
        CacheView { storage: self.storage.remove_keys(keys_of(address)), ..self }
    }

    /// With the changed ones of some slots of an address.
    pub open spec fn with_slots(
        self,
        address: Address,
        slots: Seq<(U256, StorageSlot)>,
    ) -> CacheView {
        CacheView { storage: slots_written(self.storage, address, slots), ..self }
    }

    /// With a contract's code, unless it is known already.
    pub open spec fn with_code(self, hash: B256, code: Bytecode) -> CacheView {
        CacheView {
            contracts: if self.contracts.contains_key(code_key_spec(hash)) {
                self.contracts
            } else {
                self.contracts.insert(code_key_spec(hash), code)
            },
            ..self
        }
    }

    /// `entry` is what the cache holds for an account before a change is applied: the cached
    /// entry, or else the account as it was before the change.
    pub open spec fn starts_from(
        self,
        address: Address,
        account: Account,
        entry: CacheAccountInfo,
    ) -> bool {
        match self.account(address) {
            Some(cached) => entry == cached,
            None => entry.is_loaded_from(
                if account.loaded_as_not_existing {
                    None
                } else {
                    Some(account.original_info)
                },
            ),
        }
    }

    /// The cache after a touched account was applied to the entry that it started from.
    pub open spec fn applied(
        self,
        address: Address,
        account: Account,
        entry: CacheAccountInfo,
    ) -> CacheView {
        if account.selfdestructed {
            self.without_storage(address).with_account(address, entry.selfdestructed())
        } else if account.created {
            self.without_storage(address).with_account(address, entry.created(account)).with_slots(
                address,
                account.storage@,
            ).with_code(account.info.code_hash, account.info.code->0)
        } else if account.info.empty() {
            self.without_storage(address).with_account(address, entry.touched_empty())
        } else {
            self.with_account(address, entry.changed(account)).with_slots(
                address,
                account.storage@,
            )
        }
    }

    /// A created account brings its code.
    pub open spec fn applicable(account: Account) -> bool {
        account.touched && !account.selfdestructed && account.created ==> account.info.code is Some
    }

    /// How applying one account turns this cache into `after`, and the transition that it yields:
    /// an untouched account changes nothing.
    pub open spec fn applies(
        self,
        address: Address,
        account: Account,
        after: CacheView,
        transition: Option<Transition>,
    ) -> bool {
        if !account.touched {
            after == self && transition is None
        } else {
            exists|entry: CacheAccountInfo| {
                &&& #[trigger] self.starts_from(address, account, entry)
                &&& after == self.applied(address, account, entry)
                &&& transition == transition_of(account, entry)
            }
        }
    }

    /// How applying one account after others turns this cache into `after`, and the transitions
    /// of the others into all transitions.
    pub open spec fn applies_after(
        self,
        change: (Address, Account),
        after: CacheView,
        earlier: Seq<(Address, Transition)>,
        last: Option<Transition>,
        transitions: Seq<(Address, Transition)>,
    ) -> bool {
        &&& self.applies(change.0, change.1, after, last)
        &&& transitions == match last {
            Some(transition) => earlier.push((change.0, transition)),
            None => earlier,
        }
    }

    /// How applying a list of accounts one after the other turns this cache into `after`, and the
    /// transitions that it yields.
    pub open spec fn applies_all(
        self,
        changes: Seq<(Address, Account)>,
        after: CacheView,
        transitions: Seq<(Address, Transition)>,
    ) -> bool
        decreases changes.len(),
    {
        if changes.len() == 0 {
            after == self && transitions.len() == 0
        } else {
            exists|middle: CacheView, earlier: Seq<(Address, Transition)>, last: Option<Transition>|
                {
                    &&& self.applies_all(changes.drop_last(), middle, earlier)
                    &&& #[trigger] middle.applies_after(
                        changes.last(),
                        after,
                        earlier,
                        last,
                        transitions,
                    )
                }
        }
    }
}

/// The transition of a touched account from the entry that it started from.
pub open spec fn transition_of(account: Account, entry: CacheAccountInfo) -> Option<Transition> {
    if account.selfdestructed {
        entry.selfdestruct_transition()
    } else if account.created {
        Some(entry.created_transition(account))
    } else if account.info.empty() {
        entry.touched_empty_transition()
    } else {
        Some(entry.changed_transition(account))
    }
}

/// Cache state shared by speculative EVM workers and the ordered commit path.
pub struct ParallelCacheState {
    accounts: Table<CacheAccountInfo>,
    storage: Table<U256>,
    contracts: Table<Bytecode>,
}

impl View for ParallelCacheState {
    type V = CacheView;

    closed spec fn view(&self) -> CacheView {
        CacheView {
            accounts: self.accounts@,
            storage: self.storage@,
            contracts: self.contracts@,
        }
    }
}

impl ParallelCacheState {
    /// Accounts are keyed as accounts, slots as slots and codes as codes.
    pub closed spec fn wf(&self) -> bool {
        &&& self.accounts.wf()
        &&& self.storage.wf()
        &&& self.contracts.wf()
        &&& forall|key: Key| #[trigger]
            self.accounts@.contains_key(key) ==> key == account_key_spec(key.1)
        &&& forall|key: Key| #[trigger]
            self.storage@.contains_key(key) ==> key == slot_key_spec(key.1, key.2)
        &&& forall|key: Key| #[trigger]
            self.contracts@.contains_key(key) ==> key == code_key_spec(key.2)
    }

    /// Create an empty cache.
    pub fn new() -> (cache: Self)
        ensures
            cache.wf(),
            cache@ == (CacheView {
                accounts: Map::empty(),
                storage: Map::empty(),
                contracts: Map::empty(),
            }),
    {
        ParallelCacheState {
            accounts: Table::new(),
            storage: Table::new(),
            contracts: Table::new(),
        }
    }

    /// What the cache knows about an account.
    pub fn account(&self, address: Address) -> (info: Option<&CacheAccountInfo>)
        requires
            self.wf(),
        ensures
            match info {
                Some(info) => self@.account(address) == Some(*info),
                None => self@.account(address) is None,
            },
    {
        self.accounts.get(&account_key(address))
    }

    /// The known value of a slot.
    pub fn slot(&self, address: Address, slot: U256) -> (value: Option<U256>)
        requires
            self.wf(),
        ensures
            value == self@.slot(address, slot),
    {
        match self.storage.get(&slot_key(address, slot)) {
            Some(value) => Some(*value),
            None => None,
        }
    }

    /// The known code of a contract.
    pub fn code(&self, hash: B256) -> (code: Option<&Bytecode>)
        requires
            self.wf(),
        ensures
            match code {
                Some(code) => self@.contracts.contains_key(code_key_spec(hash))
                    && self@.contracts[code_key_spec(hash)] == *code,
                None => !self@.contracts.contains_key(code_key_spec(hash)),
            },
    {
        self.contracts.get(&code_key(hash))
    }

    /// Remembers an account.
    pub(crate) fn set_account(&mut self, address: Address, info: CacheAccountInfo)
        requires
            old(self).wf(),
        ensures
            final(self).wf(),
            final(self)@ == old(self)@.with_account(address, info),
    {
        self.accounts.insert(account_key(address), info);
    }

    /// Remembers a slot.
    pub(crate) fn set_slot(&mut self, address: Address, slot: U256, value: U256)
        requires
            old(self).wf(),
        ensures
            final(self).wf(),
            final(self)@ == (CacheView {
                storage: old(self)@.storage.insert(slot_key_spec(address, slot), value),
                ..old(self)@
            }),
    {
        self.storage.insert(slot_key(address, slot), value);
    }

    /// Remembers a contract's code, unless it is known already.
    pub(crate) fn set_code(&mut self, hash: B256, code: Bytecode)
        requires
            old(self).wf(),
        ensures
            final(self).wf(),
            final(self)@ == old(self)@.with_code(hash, code),
    {
        let key: Key = code_key(hash);
        if !self.contracts.contains_key(&key) {
            self.contracts.insert(key, code);
        }
    }

    /// Forgets every slot of an address.
    fn remove_storage(&mut self, address: Address)
        requires
            old(self).wf(),
        ensures
            final(self).wf(),
            final(self)@ == old(self)@.without_storage(address),
    {
        self.storage.remove_address(&address);
        assert(self@.storage =~= old(self)@.storage.remove_keys(keys_of(address)));
    }

    /// Insert a non-existent account.
    ///
    /// This replaces any cached account and storage for `address`.
    pub fn insert_not_existing(&mut self, address: Address)
        requires
            old(self).wf(),
        ensures
            final(self).wf(),
            final(self)@ == old(self)@.without_storage(address).with_account(
                address,
                (CacheAccountInfo { account: None, status: AccountStatus::LoadedNotExisting }),
            ),
    {
        self.remove_storage(address);
        self.set_account(address, CacheAccountInfo::new(None, AccountStatus::LoadedNotExisting));
    }

    /// Insert a loaded account.
    ///
    /// This replaces any cached account and storage for `address`.
    pub fn insert_account(&mut self, address: Address, info: AccountInfo)
        requires
            old(self).wf(),
        ensures
            final(self).wf(),
            exists|entry: CacheAccountInfo| {
                &&& #[trigger] entry.is_loaded_from(Some(info))
                &&& final(self)@ == old(self)@.without_storage(address).with_account(
                    address,
                    entry,
                )
            },
            final(self)@.accounts.contains_key(account_key_spec(address)),
            holds_something(info) ==> final(self)@.accounts[account_key_spec(address)] == (
            CacheAccountInfo { account: Some(info), status: AccountStatus::Loaded }),
            !holds_something(info) ==> {
                let entry = final(self)@.accounts[account_key_spec(address)];
                &&& entry.status == AccountStatus::LoadedEmptyEIP161
                &&& entry.account is Some
                &&& !holds_something(entry.account->0)
            },
    {
        self.remove_storage(address);
        let entry = CacheAccountInfo::from_loaded(Some(info));
        let ghost entry_value = entry;
        self.set_account(address, entry);
        assert(entry_value.is_loaded_from(Some(info)));
    }

    /// Insert a loaded account and its storage.
    ///
    /// This replaces any cached account and storage for `address`.
    pub fn insert_account_with_storage(
        &mut self,
        address: Address,
        info: AccountInfo,
        storage: Vec<(U256, U256)>,
    )
        requires
            old(self).wf(),
        ensures
            final(self).wf(),
            exists|entry: CacheAccountInfo| {
                &&& #[trigger] entry.is_loaded_from(Some(info))
                &&& final(self)@ == (CacheView {
                    storage: values_written(
                        old(self)@.without_storage(address).storage,
                        address,
                        storage@,
                    ),
                    ..old(self)@
                }).with_account(address, entry)
            },
            final(self)@.accounts.contains_key(account_key_spec(address)),
            holds_something(info) ==> final(self)@.accounts[account_key_spec(address)] == (
            CacheAccountInfo { account: Some(info), status: AccountStatus::Loaded }),
            !holds_something(info) ==> {
                let entry = final(self)@.accounts[account_key_spec(address)];
                &&& entry.status == AccountStatus::LoadedEmptyEIP161
                &&& entry.account is Some
                &&& !holds_something(entry.account->0)
            },
    {
        let ghost before = self@;
        self.remove_storage(address);
        let mut i: usize = 0;
        while i < storage.len()
            invariant
                self.wf(),
                i <= storage.len(),
                self@ == (CacheView {
                    storage: values_written(
                        before.without_storage(address).storage,
                        address,
                        storage@.take(i as int),
                    ),
                    ..before
                }),
            decreases storage.len() - i,
        {
            let (slot, value) = storage[i];
            assert(storage@.take(i + 1).drop_last() =~= storage@.take(i as int));
            self.set_slot(address, slot, value);
            i = i + 1;
        }
        assert(storage@.take(i as int) =~= storage@);
        let entry = CacheAccountInfo::from_loaded(Some(info));
        let ghost entry_value = entry;
        self.set_account(address, entry);
        assert(entry_value.is_loaded_from(Some(info)));
    }

    /// Writes the changed ones of some slots of an address.
    pub fn update_changed_storage_slots(&mut self, address: Address, storage: &SlotChanges)
        requires
            old(self).wf(),
        ensures
            final(self).wf(),
            final(self)@ == old(self)@.with_slots(address, storage@),
    {
        let ghost before = self@;
        let mut i: usize = 0;
        while i < storage.len()
            invariant
                self.wf(),
                i <= storage.len(),
                self@ == before.with_slots(address, storage@.take(i as int)),
            decreases storage.len() - i,
        {
            let (slot, value) = storage[i];
            assert(storage@.take(i + 1).drop_last() =~= storage@.take(i as int));
            if value.is_changed() {
                self.set_slot(address, slot, value.present_value);
            }
            i = i + 1;
        }
        assert(storage@.take(i as int) =~= storage@);
    }

    /// Takes the entry that a change starts from out of the cache. A change can originate from an
    /// EVM backed by a different database; then the account as it was before the change counts.
    fn get_or_insert_account(&mut self, address: Address, account: &Account) -> (entry:
        CacheAccountInfo)
        requires
            old(self).wf(),
        ensures
            final(self).wf(),
            old(self)@.starts_from(address, *account, entry),
            final(self)@ == (CacheView {
                accounts: old(self)@.accounts.remove(account_key_spec(address)),
                ..old(self)@
            }),
    {
        match self.accounts.remove(&account_key(address)) {
            Some(entry) => entry,
            None => {
                if account.loaded_as_not_existing {
                    CacheAccountInfo::from_loaded(None)
                } else {
                    CacheAccountInfo::from_loaded(Some(account.original_info.clone()))
                }
            },
        }
    }

    /// Applies one account of an EVM output and returns its transition. An untouched account
    /// changes nothing; a destroyed, created or emptied one loses its storage; of the slots only
    /// the changed ones are kept.
    pub fn apply_account_state(&mut self, address: Address, account: Account) -> (transition:
        Option<Transition>)
        requires
            old(self).wf(),
            CacheView::applicable(account),
        ensures
            final(self).wf(),
            old(self)@.applies(address, account, final(self)@, transition),
    {
        if !account.touched {
            return None;
        }
        let ghost before = self@;
        let ghost given = account;
        let mut entry = self.get_or_insert_account(address, &account);
        let ghost start = entry;
        assert(before.starts_from(address, given, start));
        if account.selfdestructed {
            self.remove_storage(address);
            let transition = entry.selfdestruct();
            self.set_account(address, entry);
            assert(self@ =~= before.applied(address, given, start));
            return transition;
        }
        if account.created {
            let code_hash: B256 = account.info.code_hash;
            let code: Option<Bytecode> = match &account.info.code {
                Some(code) => Some(code.clone()),
                None => None,
            };
            self.remove_storage(address);
            let transition = entry.newly_created(account);
            self.set_account(address, entry);
            if let Some(storage) = &transition.storage {
                self.update_changed_storage_slots(address, storage);
            }
            if let Some(code) = code {
                self.set_code(code_hash, code);
            }
            assert(self@ =~= before.applied(address, given, start));
            return Some(transition);
        }
        if account.info.is_empty() {
            // revm resolves fork-sensitive empty-account semantics before this commit layer. A
            // touched, empty, non-created account that reaches us must therefore be cleared.
            self.remove_storage(address);
            let transition = entry.touch_empty_eip161();
            self.set_account(address, entry);
            assert(self@ =~= before.applied(address, given, start));
            return transition;
        }
        let transition = entry.change(account);
        self.set_account(address, entry);
        if let Some(storage) = &transition.storage {
            self.update_changed_storage_slots(address, storage);
        }
        assert(self@ =~= before.applied(address, given, start));
        Some(transition)
    }
}

/// A copy of the cached data.
#[derive(Debug, PartialEq, Eq)]
pub struct CacheState {
    /// Every cached account, once.
    pub accounts: Vec<(Address, CacheAccountInfo)>,
    /// Every cached slot of an account that exists, once.
    pub storage: Vec<(Address, U256, U256)>,
    /// Every cached code, once.
    pub contracts: Vec<(B256, Bytecode)>,
}

impl CacheView {
    /// The account is cached and exists.
    pub open spec fn exists_at(self, address: Address) -> bool {
        self.account(address) matches Some(info) && info.account is Some
    }

    /// Both caches know the same about an address.
    pub open spec fn same_at(self, other: CacheView, address: Address) -> bool {
        &&& self.account(address) == other.account(address)
        &&& forall|slot: U256| #[trigger] self.slot(address, slot) == other.slot(address, slot)
    }

    /// The list holds every cached account once.
    pub open spec fn lists_accounts(self, list: Seq<(Address, CacheAccountInfo)>) -> bool {
        &&& forall|i: int|
            0 <= i < list.len() ==> self.account((#[trigger] list[i]).0) == Some(list[i].1)
        &&& forall|address: Address|
            (#[trigger] self.account(address)) is Some ==> exists|i: int|
                0 <= i < list.len() && (#[trigger] list[i]).0 == address
        &&& forall|i: int, j: int|
            0 <= i < j < list.len() ==> (#[trigger] list[i]).0 != (#[trigger] list[j]).0
    }

    /// The list holds every cached slot of an existing account once.
    pub open spec fn lists_storage(self, list: Seq<(Address, U256, U256)>) -> bool {
        &&& forall|i: int|
            0 <= i < list.len() ==> {
                let (address, slot, value) = #[trigger] list[i];
                self.exists_at(address) && self.slot(address, slot) == Some(value)
            }
        &&& forall|address: Address, slot: U256|
            self.exists_at(address) && (#[trigger] self.slot(address, slot)) is Some ==> exists|
                i: int,
            |
                0 <= i < list.len() && (#[trigger] list[i]).0 == address && list[i].1 == slot
        &&& forall|i: int, j: int|
            0 <= i < j < list.len() ==> ((#[trigger] list[i]).0, list[i].1) != ((
            #[trigger] list[j]).0, list[j].1)
    }

    /// The list holds every cached code once.
    pub open spec fn lists_contracts(self, list: Seq<(B256, Bytecode)>) -> bool {
        &&& forall|i: int|
            0 <= i < list.len() ==> self.contracts.contains_pair(
                code_key_spec((#[trigger] list[i]).0),
                list[i].1,
            )
        &&& forall|hash: B256|
            #[trigger] self.contracts.contains_key(code_key_spec(hash)) ==> exists|i: int|
                0 <= i < list.len() && (#[trigger] list[i]).0 == hash
        &&& forall|i: int, j: int|
            0 <= i < j < list.len() ==> (#[trigger] list[i]).0 != (#[trigger] list[j]).0
    }
}

impl ParallelCacheState {
    /// Applies an EVM output account by account and returns the transitions.
    pub fn apply_evm_state_with(&mut self, evm_state: Vec<(Address, Account)>) -> (transitions: Vec<
        (Address, Transition),
    >)
        requires
            old(self).wf(),
            forall|i: int|
                0 <= i < evm_state@.len() ==> CacheView::applicable((#[trigger] evm_state@[i]).1),
        ensures
            final(self).wf(),
            old(self)@.applies_all(evm_state@, final(self)@, transitions@),
    {
        let ghost before = self@;
        let ghost changes = evm_state@;
        let mut transitions: Vec<(Address, Transition)> = Vec::new();
        assert(changes.take(0) =~= Seq::<(Address, Account)>::empty());
        for change in iter: evm_state
            invariant
                self.wf(),
                iter.seq() == changes,
                forall|i: int|
                    0 <= i < changes.len() ==> CacheView::applicable((#[trigger] changes[i]).1),
                before.applies_all(changes.take(iter.index() as int), self@, transitions@),
        {
            let ghost done = iter.index() as int;
            let ghost middle = self@;
            let ghost earlier = transitions@;
            let (address, account) = change;
            let ghost applied_account = account;
            let transition = self.apply_account_state(address, account);
            let ghost last = transition;
            if let Some(transition) = transition {
                transitions.push((address, transition));
            }
            proof {
                assert(changes.take(done + 1).drop_last() =~= changes.take(done));
                assert(changes.take(done + 1).last() == (address, applied_account));
                assert(before.applies_all(changes.take(done), middle, earlier));
                assert(middle.applies_after(
                    changes[done],
                    self@,
                    earlier,
                    last,
                    transitions@,
                ));
            }
        }
        assert(changes.take(changes.len() as int) =~= changes);
        transitions
    }

    /// Applies an EVM output and returns transitions that list exactly the changed slots.
    pub fn apply_evm_state(&mut self, evm_state: Vec<(Address, Account)>) -> (transitions: Vec<
        (Address, OwnedTransition),
    >)
        requires
            old(self).wf(),
            forall|i: int|
                0 <= i < evm_state@.len() ==> CacheView::applicable((#[trigger] evm_state@[i]).1),
        ensures
            final(self).wf(),
            exists|all: Seq<(Address, Transition)>| {
                &&& #[trigger] old(self)@.applies_all(evm_state@, final(self)@, all)
                &&& transitions@.len() == all.len()
                &&& forall|i: int|
                    0 <= i < all.len() ==> (#[trigger] transitions@[i]).0 == all[i].0
                        && owned_from(transitions@[i].1, all[i].1)
            },
    {
        let ghost before = self@;
        let ghost changes = evm_state@;
        let all = self.apply_evm_state_with(evm_state);
        let ghost listed = all@;
        assert(before.applies_all(changes, self@, listed));
        let mut owned: Vec<(Address, OwnedTransition)> = Vec::new();
        for item in iter: all
            invariant
                iter.seq() == listed,
                owned@.len() == iter.index(),
                forall|i: int|
                    0 <= i < owned@.len() ==> (#[trigger] owned@[i]).0 == listed[i].0
                        && owned_from(owned@[i].1, listed[i].1),
        {
            let (address, transition) = item;
            owned.push((address, into_owned_transition(transition)));
        }
        owned
    }

    /// Copies the cached data: every account, the slots of the accounts that exist, and every
    /// code.
    pub fn as_cache_state(&self) -> (state: CacheState)
        requires
            self.wf(),
        ensures
            self@.lists_accounts(state.accounts@),
            self@.lists_storage(state.storage@),
            self@.lists_contracts(state.contracts@),
    {
        CacheState {
            accounts: self.copy_accounts(),
            storage: self.copy_storage(),
            contracts: self.copy_contracts(),
        }
    }

    /// Copies every account.
    fn copy_accounts(&self) -> (accounts: Vec<(Address, CacheAccountInfo)>)
        requires
            self.wf(),
        ensures
            self@.lists_accounts(accounts@),
    {
        let mut accounts: Vec<(Address, CacheAccountInfo)> = Vec::new();
        let ghost entries = self.accounts.entries();
        proof {
            self.accounts.lemma_entries();
        }
        let mut i: usize = 0;
        while i < self.accounts.len()
            invariant
                i <= entries.len(),
                entries == self.accounts.entries(),
                accounts@.len() == i,
                forall|k: int|
                    0 <= k < i ==> #[trigger] accounts@[k] == (entries[k].0.1, entries[k].1),
            decreases entries.len() - i,
        {
            let entry = self.accounts.entry(i);
            accounts.push((entry.0.1, entry.1.clone()));
            i = i + 1;
        }
        assert(self@.lists_accounts(accounts@)) by {
            assert forall|k: int| 0 <= k < accounts@.len() implies self@.account(
                (#[trigger] accounts@[k]).0,
            ) == Some(accounts@[k].1) by {
                assert(self.accounts@.contains_key(entries[k].0));
            }
            assert forall|address: Address|
                (#[trigger] self@.account(address)) is Some implies exists|k: int|
                0 <= k < accounts@.len() && (#[trigger] accounts@[k]).0 == address by {
                assert(self.accounts@.contains_key(account_key_spec(address)));
                let k = choose|k: int|
                    0 <= k < entries.len() && (#[trigger] entries[k]).0 == account_key_spec(
                        address,
                    );
                assert(accounts@[k].0 == address);
            }
            assert forall|j: int, k: int| 0 <= j < k < accounts@.len() implies (
            #[trigger] accounts@[j]).0 != (#[trigger] accounts@[k]).0 by {
                assert(self.accounts@.contains_key(entries[j].0));
                assert(self.accounts@.contains_key(entries[k].0));
                assert(entries[j].0 != entries[k].0);
            }
        }
        accounts
    }

    /// Copies the slots of the accounts that exist.
    fn copy_storage(&self) -> (storage: Vec<(Address, U256, U256)>)
        requires
            self.wf(),
        ensures
            self@.lists_storage(storage@),
    {
        let mut storage: Vec<(Address, U256, U256)> = Vec::new();
        let ghost entries = self.storage.entries();
        let ghost mut origin: Seq<int> = Seq::empty();
        proof {
            self.storage.lemma_entries();
        }
        let mut i: usize = 0;
        while i < self.storage.len()
            invariant
                self.wf(),
                i <= entries.len(),
                entries == self.storage.entries(),
                origin.len() == storage@.len(),
                forall|k: int|
                    0 <= k < storage@.len() ==> {
                        &&& 0 <= #[trigger] origin[k] < i
                        &&& storage@[k] == (
                            entries[origin[k]].0.1,
                            entries[origin[k]].0.2,
                            entries[origin[k]].1,
                        )
                        &&& self@.exists_at(entries[origin[k]].0.1)
                    },
                forall|j: int, k: int|
                    0 <= j < k < storage@.len() ==> #[trigger] origin[j] < #[trigger] origin[k],
                forall|e: int|
                    0 <= e < i && self@.exists_at((#[trigger] entries[e]).0.1) ==> origin.contains(
                        e,
                    ),
            decreases entries.len() - i,
        {
            let entry = self.storage.entry(i);
            let address: Address = entry.0.1;
            let existing: bool = match self.account(address) {
                Some(info) => info.account.is_some(),
                None => false,
            };
            let ghost before = origin;
            if existing {
                storage.push((address, entry.0.2, entry.1));
                proof {
                    origin = origin.push(i as int);
                    assert(origin[before.len() as int] == i);
                }
            }
            proof {
                assert forall|e: int|
                    0 <= e < i + 1 && self@.exists_at(
                        (#[trigger] entries[e]).0.1,
                    ) implies origin.contains(e) by {
                    if e < i {
                        let k = choose|k: int| 0 <= k < before.len() && before[k] == e;
                        assert(before.contains(e));
                        assert(origin[k] == e);
                    } else {
                        assert(origin[before.len() as int] == e);
                    }
                }
            }
            i = i + 1;
        }
        assert(self@.lists_storage(storage@)) by {
            assert forall|k: int| 0 <= k < storage@.len() implies {
                let (address, slot, value) = #[trigger] storage@[k];
                self@.exists_at(address) && self@.slot(address, slot) == Some(value)
            } by {
                assert(0 <= origin[k] < entries.len());
                assert(self.storage@.contains_key(entries[origin[k]].0));
            }
            assert forall|address: Address, slot: U256|
                self@.exists_at(address) && (#[trigger] self@.slot(
                    address,
                    slot,
                )) is Some implies exists|k: int|
                0 <= k < storage@.len() && (#[trigger] storage@[k]).0 == address && storage@[k].1
                    == slot by {
                let key = slot_key_spec(address, slot);
                assert(self.storage@.contains_key(key));
                let e = choose|e: int| 0 <= e < entries.len() && (#[trigger] entries[e]).0 == key;
                assert(origin.contains(e));
                let k = choose|k: int| 0 <= k < origin.len() && origin[k] == e;
                assert(storage@[k].0 == address);
            }
            assert forall|j: int, k: int| 0 <= j < k < storage@.len() implies ((
            #[trigger] storage@[j]).0, storage@[j].1) != ((
            #[trigger] storage@[k]).0, storage@[k].1) by {
                assert(origin[j] < origin[k]);
                assert(self.storage@.contains_key(entries[origin[j]].0));
                assert(self.storage@.contains_key(entries[origin[k]].0));
                assert(entries[origin[j]].0 != entries[origin[k]].0);
            }
        }
        storage
    }

    /// Copies every code.
    fn copy_contracts(&self) -> (contracts: Vec<(B256, Bytecode)>)
        requires
            self.wf(),
        ensures
            self@.lists_contracts(contracts@),
    {
        let mut contracts: Vec<(B256, Bytecode)> = Vec::new();
        let ghost entries = self.contracts.entries();
        proof {
            self.contracts.lemma_entries();
        }
        let mut i: usize = 0;
        while i < self.contracts.len()
            invariant
                i <= entries.len(),
                entries == self.contracts.entries(),
                contracts@.len() == i,
                forall|k: int|
                    0 <= k < i ==> #[trigger] contracts@[k] == (entries[k].0.2, entries[k].1),
            decreases entries.len() - i,
        {
            let entry = self.contracts.entry(i);
            contracts.push((entry.0.2, entry.1.clone()));
            i = i + 1;
        }
        assert(self@.lists_contracts(contracts@)) by {
            assert forall|k: int| 0 <= k < contracts@.len() implies self@.contracts.contains_pair(
                code_key_spec((#[trigger] contracts@[k]).0),
                contracts@[k].1,
            ) by {
                assert(self.contracts@.contains_key(entries[k].0));
            }
            assert forall|hash: B256| #[trigger]
                self@.contracts.contains_key(code_key_spec(hash)) implies exists|k: int|
                0 <= k < contracts@.len() && (#[trigger] contracts@[k]).0 == hash by {
                let k = choose|k: int|
                    0 <= k < entries.len() && (#[trigger] entries[k]).0 == code_key_spec(hash);
                assert(contracts@[k].0 == hash);
            }
            assert forall|j: int, k: int| 0 <= j < k < contracts@.len() implies (
            #[trigger] contracts@[j]).0 != (#[trigger] contracts@[k]).0 by {
                assert(self.contracts@.contains_key(entries[j].0));
                assert(self.contracts@.contains_key(entries[k].0));
                assert(entries[j].0 != entries[k].0);
            }
        }
        contracts
    }
}

/// The owned transition keeps exactly the changed slots of the other one, and everything else.
pub open spec fn owned_from(owned: OwnedTransition, transition: Transition) -> bool {
    &&& owned.info == transition.info
    &&& owned.status == transition.status
    &&& owned.previous_info == transition.previous_info
    &&& owned.previous_status == transition.previous_status
    &&& owned.storage_was_destroyed == transition.storage_was_destroyed
    &&& owned.storage@ == match transition.storage {
        Some(storage) => only_changed(storage@),
        None => Seq::empty(),
    }
}

/// The storage after some values of an address were written.
pub open spec fn values_written(
    storage: Map<Key, U256>,
    address: Address,
    values: Seq<(U256, U256)>,
) -> Map<Key, U256>
    decreases values.len(),
{
    if values.len() == 0 {
        storage
    } else {
        values_written(storage, address, values.drop_last()).insert(
            slot_key_spec(address, values.last().0),
            values.last().1,
        )
    }
}

/// The value that a list of slot changes leaves in a slot, if it changes the slot.
pub open spec fn written_value(slots: Seq<(U256, StorageSlot)>, slot: U256) -> Option<U256>
    decreases slots.len(),
{
    if slots.len() == 0 {
        None
    } else if slots.last().0 == slot && slots.last().1.changed() {
        Some(slots.last().1.present_value)
    } else {
        written_value(slots.drop_last(), slot)
    }
}

/// What a slot holds after a list of slot changes was written.
proof fn lemma_slots_written(
    storage: Map<Key, U256>,
    address: Address,
    slots: Seq<(U256, StorageSlot)>,
    key: Key,
)
    ensures
        ({
            let after = slots_written(storage, address, slots);
            let written = if key == slot_key_spec(address, key.2) {
                written_value(slots, key.2)
            } else {
                None
            };
            match written {
                Some(value) => after.contains_pair(key, value),
                None => after.contains_key(key) == storage.contains_key(key) && (
                storage.contains_key(key) ==> after[key] == storage[key]),
            }
        }),
    decreases slots.len(),
{
    if slots.len() > 0 {
        lemma_slots_written(storage, address, slots.drop_last(), key);
    }
}

/// Applying changes leaves what the cache knows about every other address as it was.
pub proof fn law_other_addresses_are_unaffected(
    before: CacheView,
    changes: Seq<(Address, Account)>,
    after: CacheView,
    transitions: Seq<(Address, Transition)>,
    address: Address,
)
    requires
        before.applies_all(changes, after, transitions),
        forall|i: int| 0 <= i < changes.len() ==> (#[trigger] changes[i]).0 != address,
    ensures
        after.same_at(before, address),
        forall|i: int| 0 <= i < transitions.len() ==> (#[trigger] transitions[i]).0 != address,
    decreases changes.len(),
{
    if changes.len() > 0 {
        let (middle, earlier, last) = choose|
            middle: CacheView,
            earlier: Seq<(Address, Transition)>,
            last: Option<Transition>,
        |
            before.applies_all(changes.drop_last(), middle, earlier)
                && #[trigger] middle.applies_after(
                changes.last(),
                after,
                earlier,
                last,
                transitions,
            );
        assert forall|i: int| 0 <= i < changes.drop_last().len() implies (
        #[trigger] changes.drop_last()[i]).0 != address by {
            assert(changes.drop_last()[i] == changes[i]);
        }
        law_other_addresses_are_unaffected(before, changes.drop_last(), middle, earlier, address);
        assert(changes[changes.len() - 1].0 != address);
        lemma_applies_elsewhere(
            middle,
            changes.last().0,
            changes.last().1,
            after,
            last,
            address,
        );
    }
}

/// Applying one account leaves what the cache knows about every other address as it was.
proof fn lemma_applies_elsewhere(
    before: CacheView,
    changed: Address,
    account: Account,
    after: CacheView,
    transition: Option<Transition>,
    address: Address,
)
    requires
        before.applies(changed, account, after, transition),
        changed != address,
    ensures
        after.same_at(before, address),
{
    if account.touched {
        assert forall|slot: U256| #[trigger] after.slot(address, slot) == before.slot(
            address,
            slot,
        ) by {
            let key = slot_key_spec(address, slot);
            lemma_slots_written(before.storage, changed, account.storage@, key);
            lemma_slots_written(
                before.without_storage(changed).storage,
                changed,
                account.storage@,
                key,
            );
        }
    }
}

/// Of a list that names an address once, only that entry decides what the cache knows about the
/// address afterwards.
pub(crate) proof fn lemma_one_entry_decides(
    before: CacheView,
    changes: Seq<(Address, Account)>,
    after: CacheView,
    transitions: Seq<(Address, Transition)>,
    position: int,
) -> (around: (CacheView, CacheView, Option<Transition>))
    requires
        before.applies_all(changes, after, transitions),
        0 <= position < changes.len(),
        forall|i: int|
            0 <= i < changes.len() && i != position ==> (#[trigger] changes[i]).0
                != changes[position].0,
    ensures
        around.0.same_at(before, changes[position].0),
        around.0.applies(changes[position].0, changes[position].1, around.1, around.2),
        after.same_at(around.1, changes[position].0),
        around.2 is None ==> forall|i: int|
            0 <= i < transitions.len() ==> (#[trigger] transitions[i]).0 != changes[position].0,
        around.2 is Some ==> exists|at: int|
            0 <= at < transitions.len() && #[trigger] transitions[at] == (
                changes[position].0,
                around.2->0,
            ) && forall|i: int|
                0 <= i < transitions.len() && i != at ==> (#[trigger] transitions[i]).0
                    != changes[position].0,
    decreases changes.len(),
{
    let address = changes[position].0;
    let (middle, earlier, last) = choose|
        middle: CacheView,
        earlier: Seq<(Address, Transition)>,
        last: Option<Transition>,
    |
        before.applies_all(changes.drop_last(), middle, earlier) && #[trigger] middle.applies_after(
            changes.last(),
            after,
            earlier,
            last,
            transitions,
        );
    assert forall|i: int| 0 <= i < changes.drop_last().len() && i != position implies (
    #[trigger] changes.drop_last()[i]).0 != address by {
        assert(changes.drop_last()[i] == changes[i]);
    }
    if position == changes.len() - 1 {
        law_other_addresses_are_unaffected(before, changes.drop_last(), middle, earlier, address);
        if last is Some {
            assert(transitions[earlier.len() as int] == (address, last->0));
        }
        (middle, after, last)
    } else {
        assert(changes[changes.len() - 1].0 != address);
        let around = lemma_one_entry_decides(
            before,
            changes.drop_last(),
            middle,
            earlier,
            position,
        );
        lemma_applies_elsewhere(
            middle,
            changes.last().0,
            changes.last().1,
            after,
            last,
            address,
        );
        if around.2 is Some {
            let at = choose|at: int|
                0 <= at < earlier.len() && #[trigger] earlier[at] == (address, around.2->0)
                    && forall|i: int|
                    0 <= i < earlier.len() && i != at ==> (#[trigger] earlier[i]).0 != address;
            assert(transitions[at] == (address, around.2->0));
        }
        around
    }
}

/// The transitions of an output are one per account that exists after it, and further ones only for
/// accounts that it destroyed, in the order of the output: `places` says which account each of them
/// belongs to. A transition leads to the account as the output has it, with the slots that the
/// output lists, or to none where the output destroyed the account.
pub proof fn law_transitions_follow_the_output(
    before: CacheView,
    changes: Seq<(Address, Account)>,
    after: CacheView,
    transitions: Seq<(Address, Transition)>,
) -> (places: Seq<int>)
    requires
        before.applies_all(changes, after, transitions),
    ensures
        places.len() == transitions.len(),
        forall|i: int, j: int| 0 <= i < j < places.len() ==> #[trigger] places[i] < #[trigger] places[j],
        forall|i: int|
            0 <= i < places.len() ==> {
                &&& 0 <= #[trigger] places[i] < changes.len()
                &&& changes[places[i]].1.touched
                &&& transitions[i].0 == changes[places[i]].0
                &&& if lives_on(changes[places[i]].1) {
                    &&& transitions[i].1.info == Some(changes[places[i]].1.info)
                    &&& transitions[i].1.storage == Some(changes[places[i]].1.storage)
                    &&& !transitions[i].1.storage_was_destroyed
                } else {
                    &&& transitions[i].1.info is None
                    &&& transitions[i].1.storage is None
                    &&& transitions[i].1.storage_was_destroyed
                }
            },
        forall|p: int|
            0 <= p < changes.len() && (#[trigger] changes[p]).1.touched && lives_on(changes[p].1)
                ==> places.contains(p),
    decreases changes.len(),
{
    if changes.len() == 0 {
        Seq::empty()
    } else {
        let (middle, earlier, last) = choose|
            middle: CacheView,
            earlier: Seq<(Address, Transition)>,
            last: Option<Transition>,
        |
            before.applies_all(changes.drop_last(), middle, earlier)
                && #[trigger] middle.applies_after(
                changes.last(),
                after,
                earlier,
                last,
                transitions,
            );
        let first = law_transitions_follow_the_output(
            before,
            changes.drop_last(),
            middle,
            earlier,
        );
        let end = changes.len() - 1;
        let places = if last is Some {
            first.push(end)
        } else {
            first
        };
        assert forall|p: int|
            0 <= p < changes.len() && (#[trigger] changes[p]).1.touched && lives_on(
                changes[p].1,
            ) implies places.contains(p) by {
            if p < end {
                assert(changes.drop_last()[p] == changes[p]);
                let k = choose|k: int| 0 <= k < first.len() && first[k] == p;
                assert(places[k] == p);
            } else {
                assert(last is Some);
                assert(places[first.len() as int] == p);
            }
        }
        assert forall|i: int| 0 <= i < first.len() implies changes.drop_last()[
            #[trigger] first[i]
        ] == changes[first[i]] by {}
        places
    }
}

/// A touched account that destroyed itself, or that is empty and not newly created, no longer
/// exists afterwards, and none of its slots is known any more.
pub proof fn law_cleared_account_has_no_storage(
    before: CacheView,
    address: Address,
    account: Account,
    after: CacheView,
    transition: Option<Transition>,
)
    requires
        before.applies(address, account, after, transition),
        account.touched,
        account.selfdestructed || !account.created && account.info.empty(),
    ensures
        after.account(address) is Some,
        !after.exists_at(address),
        forall|slot: U256| (#[trigger] after.slot(address, slot)) is None,
{
}

/// Of the slots that an account lists, exactly the changed ones reach the cache, the last value
/// of each; a newly created account has no other slots, and any other keeps those known before.
pub proof fn law_only_changed_slots_persist(
    before: CacheView,
    address: Address,
    account: Account,
    after: CacheView,
    transition: Option<Transition>,
    slot: U256,
)
    requires
        before.applies(address, account, after, transition),
        account.touched,
        !account.selfdestructed,
        account.created || !account.info.empty(),
    ensures
        after.account(address) matches Some(entry) && entry.account == Some(account.info),
        after.slot(address, slot) == match written_value(account.storage@, slot) {
            Some(value) => Some(value),
            None => if account.created {
                None
            } else {
                before.slot(address, slot)
            },
        },
{
    let key = slot_key_spec(address, slot);
    lemma_slots_written(before.storage, address, account.storage@, key);
    lemma_slots_written(
        before.without_storage(address).storage,
        address,
        account.storage@,
        key,
    );
}

/// A changed slot that an account lists once reads back with its new value.
pub proof fn law_changed_slot_reads_back(
    before: CacheView,
    address: Address,
    account: Account,
    after: CacheView,
    transition: Option<Transition>,
    position: int,
)
    requires
        before.applies(address, account, after, transition),
        account.touched,
        !account.selfdestructed,
        account.created || !account.info.empty(),
        0 <= position < account.storage@.len(),
        account.storage@[position].1.changed(),
        forall|i: int|
            0 <= i < account.storage@.len() && i != position ==> (#[trigger] account.storage@[i]).0
                != account.storage@[position].0,
    ensures
        after.slot(address, account.storage@[position].0) == Some(
            account.storage@[position].1.present_value,
        ),
{
    let slot = account.storage@[position].0;
    law_only_changed_slots_persist(before, address, account, after, transition, slot);
    lemma_written_value(account.storage@, position);
}

/// The value written to a slot is that of the last change listed for it.
proof fn lemma_written_value(slots: Seq<(U256, StorageSlot)>, position: int)
    requires
        0 <= position < slots.len(),
        slots[position].1.changed(),
        forall|i: int|
            position < i < slots.len() ==> (#[trigger] slots[i]).0 != slots[position].0,
    ensures
        written_value(slots, slots[position].0) == Some(slots[position].1.present_value),
    decreases slots.len(),
{
    if position < slots.len() - 1 {
        assert(slots[slots.len() - 1].0 != slots[position].0);
        lemma_written_value(slots.drop_last(), position);
    }
}

/// A code that the cache knows is never replaced by applying changes.
pub proof fn law_known_code_is_kept(
    before: CacheView,
    changes: Seq<(Address, Account)>,
    after: CacheView,
    transitions: Seq<(Address, Transition)>,
    hash: B256,
)
    requires
        before.applies_all(changes, after, transitions),
        before.contracts.contains_key(code_key_spec(hash)),
    ensures
        after.contracts.contains_pair(code_key_spec(hash), before.contracts[code_key_spec(hash)]),
    decreases changes.len(),
{
    if changes.len() > 0 {
        let (middle, earlier, last) = choose|
            middle: CacheView,
            earlier: Seq<(Address, Transition)>,
            last: Option<Transition>,
        |
            before.applies_all(changes.drop_last(), middle, earlier)
                && #[trigger] middle.applies_after(
                changes.last(),
                after,
                earlier,
                last,
                transitions,
            );
        law_known_code_is_kept(before, changes.drop_last(), middle, earlier, hash);
    }
}

} // verus!
