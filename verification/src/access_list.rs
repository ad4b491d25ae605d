//! The block access list of EIP-7928: which accounts and slots a block accessed, and the values
//! that they took on under each block access index.

use crate::account::{code_bytes, keccak_empty, Account, AccountInfo, StorageSlot};
use crate::primitives::{zero_word_spec, Address, B256, U256};
use crate::transitions::slot_map;
use revm_primitives::U256 as Word;
use revm_state::bal::alloy::AlloyAccountChanges;
use revm_state::bal::{Bal, BlockAccessIndex};
use revm_state::{AccountInfo as EvmAccountInfo, AccountStatus, EvmStorageSlot, TransactionId};
use vstd::prelude::*;

verus! {

#[verifier::external_type_specification]
#[verifier::external_body]
pub struct ExBal(Bal);

#[verifier::external_type_specification]
#[verifier::external_body]
pub struct ExAlloyAccountChanges(AlloyAccountChanges);

/// What a block access list holds of one account: of each value its changes in the order in which
/// they were made, every one with the index that it was made under.
#[verifier::ext_equal]
pub struct AccountAccess {
    /// The changes of the nonce.
    pub nonce: Seq<(u64, u64)>,
    /// The changes of the balance.
    pub balance: Seq<(u64, U256)>,
    /// The changes of the code, as its hash and its bytes.
    pub code: Seq<(u64, (B256, Seq<u8>))>,
    /// The changes of every accessed slot; of one that was only read there are none.
    pub storage: Map<U256, Seq<(u64, U256)>>,
}

/// The accounts of a [`Bal`].
pub uninterp spec fn accessed(list: Bal) -> Map<Address, AccountAccess>;

/// What `Bal::into_alloy_bal` returns.
pub uninterp spec fn alloy_list(accounts: Map<Address, AccountAccess>) -> Seq<AlloyAccountChanges>;

/// A list without accounts.
pub open spec fn no_accesses() -> Map<Address, AccountAccess> {
    Map::empty()
}

/// The changes of a value once it is `value` under an index. A change under a new index is added
/// if it makes a difference. Under the last index it replaces the change that was there, or undoes
/// it where the value is the one from before that index. Values are compared by `key`.
pub open spec fn written<K, V>(
    writes: Seq<(u64, V)>,
    index: u64,
    original: K,
    value: V,
    key: spec_fn(V) -> K,
) -> Seq<(u64, V)> {
    let same_index = writes.len() > 0 && writes.last().0 == index;
    let earlier = if same_index {
        writes.drop_last()
    } else {
        writes
    };
    if current(earlier, original, key) == key(value) {
        earlier
    } else {
        earlier.push((index, value))
    }
}

/// The value that a list of changes ends with, by its key; `original` if there is no change.
pub open spec fn current<K, V>(
    writes: Seq<(u64, V)>,
    original: K,
    key: spec_fn(V) -> K,
) -> K {
    if writes.len() == 0 {
        original
    } else {
        key(writes.last().1)
    }
}

/// The changes of a slot, none if it was not accessed.
pub open spec fn slot_writes(
    storage: Map<U256, Seq<(u64, U256)>>,
    slot: U256,
) -> Seq<(u64, U256)> {
    if storage.contains_key(slot) {
        storage[slot]
    } else {
        Seq::empty()
    }
}

/// The bytes of an account's code; none if the code was not loaded.
pub open spec fn loaded_bytes(info: AccountInfo) -> Seq<u8> {
    match info.code {
        Some(code) => code_bytes(code),
        None => Seq::empty(),
    }
}

/// Nonce, balance, code hash and code bytes that an execution leaves: those of an empty account
/// after it destroyed itself.
pub open spec fn left(account: Account) -> (u64, U256, B256, Seq<u8>) {
    if account.selfdestructed_locally {
        (0, zero_word_spec(), keccak_empty(), Seq::empty())
    } else {
        let info = account.info;
        (info.nonce, info.balance, info.code_hash, loaded_bytes(info))
    }
}

/// The value that an execution leaves in a slot: zero after the account destroyed itself.
pub open spec fn left_in(account: Account, slot: StorageSlot) -> U256 {
    if account.selfdestructed_locally {
        zero_word_spec()
    } else {
        slot.present_value
    }
}

impl AccountAccess {
    /// An account without any access.
    pub open spec fn none() -> AccountAccess {
        AccountAccess {
            nonce: Seq::empty(),
            balance: Seq::empty(),
            code: Seq::empty(),
            storage: Map::empty(),
        }
    }

    /// With what an execution under an index did to the account.
    pub open spec fn with(self, index: u64, account: Account) -> AccountAccess {
        let original = account.original_info;
        let (nonce, balance, code_hash, bytes) = left(account);
        let slots = slot_map(account.storage@);
        AccountAccess {
            nonce: written(self.nonce, index, original.nonce, nonce, |value: u64| value),
            balance: written(self.balance, index, original.balance, balance, |value: U256| value),
            code: if original.code_hash == code_hash {
                self.code
            } else {
                written(
                    self.code,
                    index,
                    original.code_hash,
                    (code_hash, bytes),
                    |code: (B256, Seq<u8>)| code.0,
                )
            },
            storage: Map::new(
                |slot: U256| self.storage.contains_key(slot) || slots.contains_key(slot),
                |slot: U256|
                    if slots.contains_key(slot) {
                        written(
                            slot_writes(self.storage, slot),
                            index,
                            slots[slot].original_value,
                            left_in(account, slots[slot]),
                            |value: U256| value,
                        )
                    } else {
                        self.storage[slot]
                    },
            ),
        }
    }
}

/// The accesses to an account, none if it is not listed.
pub open spec fn access_of(
    accounts: Map<Address, AccountAccess>,
    address: Address,
) -> AccountAccess {
    if accounts.contains_key(address) {
        accounts[address]
    } else {
        AccountAccess::none()
    }
}

/// The list after one more account.
pub open spec fn with_access(
    before: Map<Address, AccountAccess>,
    index: u64,
    address: Address,
    account: Account,
) -> Map<Address, AccountAccess> {
    before.insert(address, access_of(before, address).with(index, account))
}

/// The list after an EVM output.
pub open spec fn with_accesses(
    before: Map<Address, AccountAccess>,
    index: u64,
    changes: Seq<(Address, Account)>,
) -> Map<Address, AccountAccess>
    decreases changes.len(),
{
    if changes.len() == 0 {
        before
    } else {
        with_access(
            with_accesses(before, index, changes.drop_last()),
            index,
            changes.last().0,
            changes.last().1,
        )
    }
}

/// `Bal::new`: no accounts.
#[verifier::external_body]
pub(crate) fn access_list_new() -> (list: Bal)
    ensures
        accessed(list) == no_accesses(),
{
    Bal::new()
}

/// `Bal::update_account`: adds the account to the list, with the changes of its nonce, balance,
/// code and accessed slots under the index.
#[verifier::external_body]
fn access_list_update(list: &mut Bal, index: u64, address: Address, account: &Account)
    ensures
        accessed(*final(list)) == with_access(accessed(*old(list)), index, address, *account),
{
    let word = Word::from_be_bytes;
    let info = |from: &AccountInfo| EvmAccountInfo {
        balance: word(from.balance), nonce: from.nonce, code_hash: from.code_hash.into(),
        account_id: from.account_id, code: from.code.clone(),
    };
    let slot = |(key, from): &(U256, StorageSlot)|
        (word(*key), EvmStorageSlot::new_changed(word(from.original_value), word(from.present_value), TransactionId::ZERO));
    let mut changed = revm_state::Account::from(info(&account.info));
    *changed.original_info_mut() = info(&account.original_info);
    changed.storage = account.storage.iter().map(slot).collect();
    changed.status.set(AccountStatus::SelfDestructedLocal, account.selfdestructed_locally);
    list.update_account(BlockAccessIndex::new(index), address.into(), &changed);
}

/// `Bal::into_alloy_bal`: the list in the form of EIP-7928, with the accounts in the order of
/// their addresses, so a function of what was accessed.
#[verifier::external_body]
pub(crate) fn access_list_finish(list: Bal) -> (accounts: Vec<AlloyAccountChanges>)
    ensures
        accounts@ == alloy_list(accessed(list)),
{
    list.into_alloy_bal()
}

/// Adds every account of an EVM output to a list.
pub(crate) fn record_all(list: &mut Bal, index: u64, changes: &Vec<(Address, Account)>)
    ensures
        accessed(*final(list)) == with_accesses(accessed(*old(list)), index, changes@),
{
    let ghost before = accessed(*list);
    let mut i: usize = 0;
    assert(changes@.take(0) =~= Seq::<(Address, Account)>::empty());
    while i < changes.len()
        invariant
            i <= changes.len(),
            accessed(*list) == with_accesses(before, index, changes@.take(i as int)),
        decreases changes.len() - i,
    {
        assert(changes@.take(i + 1).drop_last() =~= changes@.take(i as int));
        access_list_update(list, index, changes[i].0, &changes[i].1);
        i = i + 1;
    }
    assert(changes@.take(changes@.len() as int) =~= changes@);
}

/// The changes of a value end with what was written last.
pub proof fn law_last_write_is_current<K, V>(
    writes: Seq<(u64, V)>,
    index: u64,
    original: K,
    value: V,
    key: spec_fn(V) -> K,
)
    ensures
        current(written(writes, index, original, value, key), original, key) == key(value),
{
}

/// A value that is back, under the same index, to what it was before that index leaves no trace.
pub proof fn law_restored_value_leaves_no_trace<K, V>(
    writes: Seq<(u64, V)>,
    index: u64,
    original: K,
    value: V,
    restored: V,
    key: spec_fn(V) -> K,
)
    requires
        writes.len() > 0 ==> writes.last().0 != index,
        key(restored) == current(writes, original, key),
    ensures
        written(written(writes, index, original, value, key), index, original, restored, key)
            == writes,
{
    assert(writes.push((index, value)).drop_last() =~= writes);
}

/// An account or slot that is listed stays listed.
pub proof fn law_accesses_stay_listed(
    before: Map<Address, AccountAccess>,
    index: u64,
    changes: Seq<(Address, Account)>,
    address: Address,
    slot: U256,
)
    requires
        before.contains_key(address),
    ensures
        with_accesses(before, index, changes).contains_key(address),
        before[address].storage.contains_key(slot) ==> with_accesses(
            before,
            index,
            changes,
        )[address].storage.contains_key(slot),
    decreases changes.len(),
{
    if changes.len() > 0 {
        law_accesses_stay_listed(before, index, changes.drop_last(), address, slot);
    }
}

/// Every account and every slot of an EVM output is listed, also those that were only read.
pub proof fn law_every_access_is_listed(
    before: Map<Address, AccountAccess>,
    index: u64,
    changes: Seq<(Address, Account)>,
    position: int,
    slot: int,
)
    requires
        0 <= position < changes.len(),
    ensures
        with_accesses(before, index, changes).contains_key(changes[position].0),
        0 <= slot < changes[position].1.storage@.len() ==> with_accesses(
            before,
            index,
            changes,
        )[changes[position].0].storage.contains_key(changes[position].1.storage@[slot].0),
    decreases changes.len(),
{
    if position < changes.len() - 1 {
        law_every_access_is_listed(before, index, changes.drop_last(), position, slot);
    } else if 0 <= slot < changes[position].1.storage@.len() {
        lemma_listed_slot_is_mapped(changes[position].1.storage@, slot);
    }
}

/// A slot of a list is in the map of the list.
proof fn lemma_listed_slot_is_mapped(slots: Seq<(U256, StorageSlot)>, position: int)
    requires
        0 <= position < slots.len(),
    ensures
        slot_map(slots).contains_key(slots[position].0),
    decreases slots.len(),
{
    if position < slots.len() - 1 {
        lemma_listed_slot_is_mapped(slots.drop_last(), position);
    }
}

/// An EVM output leaves the accesses to an address that it does not name as they were.
pub proof fn law_other_accesses_are_unaffected(
    before: Map<Address, AccountAccess>,
    index: u64,
    changes: Seq<(Address, Account)>,
    address: Address,
)
    requires
        forall|i: int| 0 <= i < changes.len() ==> (#[trigger] changes[i]).0 != address,
    ensures
        with_accesses(before, index, changes).contains_key(address) == before.contains_key(address),
        access_of(with_accesses(before, index, changes), address) == access_of(before, address),
    decreases changes.len(),
{
    if changes.len() > 0 {
        let prefix = changes.drop_last();
        assert forall|i: int| 0 <= i < prefix.len() implies (#[trigger] prefix[i]).0 != address by {
            assert(prefix[i] == changes[i]);
        }
        law_other_accesses_are_unaffected(before, index, prefix, address);
        assert(changes[changes.len() - 1].0 != address);
    }
}

/// The list after EVM outputs that were committed one after the other, each under its index.
pub open spec fn list_after(
    before: Map<Address, AccountAccess>,
    commits: Seq<(u64, Seq<(Address, Account)>)>,
) -> Map<Address, AccountAccess>
    decreases commits.len(),
{
    if commits.len() == 0 {
        before
    } else {
        with_accesses(
            list_after(before, commits.drop_last()),
            commits.last().0,
            commits.last().1,
        )
    }
}

/// No address occurs twice.
pub open spec fn names_once(changes: Seq<(Address, Account)>) -> bool {
    forall|i: int, j: int|
        #![trigger changes[i], changes[j]]
        0 <= i < j < changes.len() ==> changes[i].0 != changes[j].0
}

/// An account that an EVM output names once is listed with exactly what the output did to it.
pub proof fn law_output_decides_the_access(
    before: Map<Address, AccountAccess>,
    index: u64,
    changes: Seq<(Address, Account)>,
    position: int,
)
    requires
        names_once(changes),
        0 <= position < changes.len(),
    ensures
        with_accesses(before, index, changes).contains_key(changes[position].0),
        with_accesses(before, index, changes)[changes[position].0] == access_of(
            before,
            changes[position].0,
        ).with(index, changes[position].1),
    decreases changes.len(),
{
    let prefix = changes.drop_last();
    let address = changes[position].0;
    assert(names_once(prefix));
    if position < prefix.len() {
        law_output_decides_the_access(before, index, prefix, position);
        assert(changes[changes.len() - 1].0 != address);
    } else {
        assert forall|i: int| 0 <= i < prefix.len() implies (#[trigger] prefix[i]).0 != address by {
            assert(prefix[i] == changes[i]);
        }
        law_other_accesses_are_unaffected(before, index, prefix, address);
    }
}

/// The order in which an EVM output names its accounts does not matter: two outputs that name each
/// account once, and the same ones, give the same list.
pub proof fn law_order_of_accounts_is_irrelevant(
    before: Map<Address, AccountAccess>,
    index: u64,
    changes: Seq<(Address, Account)>,
    reordered: Seq<(Address, Account)>,
)
    requires
        names_once(changes),
        names_once(reordered),
        changes.to_set() == reordered.to_set(),
    ensures
        with_accesses(before, index, changes) == with_accesses(before, index, reordered),
{
    let a = with_accesses(before, index, changes);
    let b = with_accesses(before, index, reordered);
    assert forall|address: Address|
        #![trigger access_of(a, address)]
        a.contains_key(address) == b.contains_key(address) && access_of(a, address) == access_of(
            b,
            address,
        ) by {
        if exists|i: int| 0 <= i < changes.len() && (#[trigger] changes[i]).0 == address {
            let i = choose|i: int| 0 <= i < changes.len() && (#[trigger] changes[i]).0 == address;
            assert(changes.to_set().contains(changes[i]));
            assert(reordered.contains(changes[i]));
            let j = choose|j: int| 0 <= j < reordered.len() && reordered[j] == changes[i];
            law_output_decides_the_access(before, index, changes, i);
            law_output_decides_the_access(before, index, reordered, j);
        } else {
            assert forall|j: int| 0 <= j < reordered.len() implies (#[trigger] reordered[j]).0
                != address by {
                assert(reordered.to_set().contains(reordered[j]));
                assert(changes.contains(reordered[j]));
                let i = choose|i: int| 0 <= i < changes.len() && changes[i] == reordered[j];
                assert(changes[i].0 != address);
            }
            law_other_accesses_are_unaffected(before, index, changes, address);
            law_other_accesses_are_unaffected(before, index, reordered, address);
        }
    }
    assert forall|address: Address| a.dom().contains(address) == b.dom().contains(address) by {
        assert(access_of(a, address) == access_of(b, address));
    }
    assert(a.dom() =~= b.dom());
    assert forall|address: Address| #[trigger] a.dom().contains(address) implies a[address]
        == b[address] by {
        assert(access_of(a, address) == access_of(b, address));
    }
    assert(a =~= b);
}

} // verus!
