//! Accounts, storage slots and account transitions.

use crate::primitives::{same_bytes, zero_word, zero_word_spec, B256, U256};
use revm_database::AccountStatus;
use revm_state::{AccountId, Bytecode};
use vstd::prelude::*;

verus! {

#[verifier::external_type_specification]
pub struct ExAccountStatus(AccountStatus);

#[verifier::external_type_specification]
#[verifier::external_body]
pub struct ExBytecode(Bytecode);

#[verifier::external_type_specification]
#[verifier::external_body]
pub struct ExAccountId(AccountId);

/// The bytes of a contract's code, as deployed.
pub uninterp spec fn code_bytes(code: Bytecode) -> Seq<u8>;

/// `Bytecode::clone`: the same code.
pub assume_specification[ <Bytecode as Clone>::clone ](code: &Bytecode) -> (copy: Bytecode)
    ensures
        copy == *code,
;

/// `Bytecode::default`: code without any byte.
#[verifier::external_body]
fn empty_code() -> (code: Bytecode)
    ensures
        code_bytes(code) == Seq::<u8>::empty(),
{
    Bytecode::default()
}

/// `AccountStatus::on_created`: an account that was ever destroyed stays marked as such.
pub assume_specification[ AccountStatus::on_created ](status: &AccountStatus) -> (next: AccountStatus)
    ensures
        next == status_on_created(*status),
;

/// The status after an account was created.
pub open spec fn status_on_created(status: AccountStatus) -> AccountStatus {
    match status {
        AccountStatus::Destroyed | AccountStatus::DestroyedChanged
        | AccountStatus::DestroyedAgain => AccountStatus::DestroyedChanged,
        _ => AccountStatus::InMemoryChange,
    }
}

/// `AccountStatus::on_touched_empty_post_eip161`: an empty account that is touched disappears.
pub assume_specification[ AccountStatus::on_touched_empty_post_eip161 ](
    status: &AccountStatus,
) -> (next: AccountStatus)
    ensures
        next == status_on_touched_empty(*status),
;

/// The status after an empty account was touched.
pub open spec fn status_on_touched_empty(status: AccountStatus) -> AccountStatus {
    match status {
        AccountStatus::LoadedNotExisting => AccountStatus::LoadedNotExisting,
        AccountStatus::DestroyedChanged | AccountStatus::DestroyedAgain =>
            AccountStatus::DestroyedAgain,
        _ => AccountStatus::Destroyed,
    }
}

/// `AccountStatus::on_changed`: a change of an account that is fully in memory keeps it there; a
/// loaded account with nonce or code may have more storage in the database.
pub assume_specification[ AccountStatus::on_changed ](
    status: &AccountStatus,
    had_no_nonce_and_code: bool,
) -> (next: AccountStatus)
    ensures
        next == status_on_changed(*status, had_no_nonce_and_code),
;

/// The status after an account was changed.
pub open spec fn status_on_changed(
    status: AccountStatus,
    had_no_nonce_and_code: bool,
) -> AccountStatus {
    match status {
        AccountStatus::LoadedNotExisting | AccountStatus::LoadedEmptyEIP161
        | AccountStatus::InMemoryChange => AccountStatus::InMemoryChange,
        AccountStatus::Loaded => if had_no_nonce_and_code {
            AccountStatus::InMemoryChange
        } else {
            AccountStatus::Changed
        },
        AccountStatus::Changed => AccountStatus::Changed,
        _ => AccountStatus::DestroyedChanged,
    }
}

/// `AccountStatus::on_selfdestructed`: an account that exists is destroyed, possibly again.
pub assume_specification[ AccountStatus::on_selfdestructed ](
    status: &AccountStatus,
) -> (next: AccountStatus)
    ensures
        next == status_on_selfdestructed(*status),
;

/// The status after an account destroyed itself.
pub open spec fn status_on_selfdestructed(status: AccountStatus) -> AccountStatus {
    match status {
        AccountStatus::LoadedNotExisting => AccountStatus::LoadedNotExisting,
        AccountStatus::Destroyed | AccountStatus::DestroyedChanged
        | AccountStatus::DestroyedAgain => AccountStatus::DestroyedAgain,
        _ => AccountStatus::Destroyed,
    }
}

/// `AccountStatus::is_storage_known`: the database holds no storage of the account that counts.
pub assume_specification[ AccountStatus::is_storage_known ](status: &AccountStatus) -> (known: bool)
    ensures
        known == storage_known(*status),
;

/// The database holds no storage of an account with this status that counts.
pub open spec fn storage_known(status: AccountStatus) -> bool {
    match status {
        AccountStatus::Loaded | AccountStatus::LoadedEmptyEIP161 | AccountStatus::Changed => false,
        _ => true,
    }
}

/// The Keccak-256 hash of the empty string.
pub open spec fn keccak_empty() -> B256 {
    [
        0xc5u8, 0xd2u8, 0x46u8, 0x01u8, 0x86u8, 0xf7u8, 0x23u8, 0x3cu8, 0x92u8, 0x7eu8, 0x7du8,
        0xb2u8, 0xdcu8, 0xc7u8, 0x03u8, 0xc0u8, 0xe5u8, 0x00u8, 0xb6u8, 0x53u8, 0xcau8, 0x82u8,
        0x27u8, 0x3bu8, 0x7bu8, 0xfau8, 0xd8u8, 0x04u8, 0x5du8, 0x85u8, 0xa4u8, 0x70u8,
    ]
}

/// The Keccak-256 hash of the empty string.
pub fn empty_code_hash() -> (hash: B256)
    ensures
        hash == keccak_empty(),
{
    [
        0xc5u8, 0xd2u8, 0x46u8, 0x01u8, 0x86u8, 0xf7u8, 0x23u8, 0x3cu8, 0x92u8, 0x7eu8, 0x7du8,
        0xb2u8, 0xdcu8, 0xc7u8, 0x03u8, 0xc0u8, 0xe5u8, 0x00u8, 0xb6u8, 0x53u8, 0xcau8, 0x82u8,
        0x27u8, 0x3bu8, 0x7bu8, 0xfau8, 0xd8u8, 0x04u8, 0x5du8, 0x85u8, 0xa4u8, 0x70u8,
    ]
}

/// Balance, nonce and code of an account.
#[derive(Debug, PartialEq, Eq)]
pub struct AccountInfo {
    /// Account balance.
    pub balance: U256,
    /// Account nonce.
    pub nonce: u64,
    /// Hash of the code, or the hash of the empty string.
    pub code_hash: B256,
    /// Hint for the database that the account was loaded from.
    pub account_id: Option<AccountId>,
    /// The code, if it was loaded.
    pub code: Option<Bytecode>,
}

impl Clone for AccountInfo {
    fn clone(&self) -> (copy: Self)
        ensures
            copy == *self,
    {
        AccountInfo {
            balance: self.balance,
            nonce: self.nonce,
            code_hash: self.code_hash,
            account_id: self.account_id,
            code: match &self.code {
                Some(code) => Some(code.clone()),
                None => None,
            },
        }
    }
}

/// `AccountInfo::is_empty` of `revm_state`: no balance, no nonce, and the hash of empty code or
/// the zero hash.
#[verifier::external_body]
fn info_is_empty(balance: &U256, nonce: u64, code_hash: &B256) -> (empty: bool)
    ensures
        empty == (*balance == zero_word_spec() && nonce == 0 && (*code_hash == keccak_empty()
            || *code_hash == zero_word_spec())),
{
    revm_state::AccountInfo {
        balance: revm_primitives::U256::from_be_bytes(*balance),
        nonce,
        code_hash: revm_primitives::B256::from(*code_hash),
        ..Default::default()
    }
    .is_empty()
}

/// `AccountInfo::has_no_code_and_nonce` of `revm_state`: no nonce and the hash of empty code.
#[verifier::external_body]
fn info_has_no_code_and_nonce(nonce: u64, code_hash: &B256) -> (none: bool)
    ensures
        none == (nonce == 0 && *code_hash == keccak_empty()),
{
    revm_state::AccountInfo {
        nonce,
        code_hash: revm_primitives::B256::from(*code_hash),
        ..Default::default()
    }
    .has_no_code_and_nonce()
}

impl AccountInfo {
    /// The account counts as empty.
    pub open spec fn empty(self) -> bool {
        &&& self.balance == zero_word_spec()
        &&& self.nonce == 0
        &&& self.code_hash == keccak_empty() || self.code_hash == zero_word_spec()
    }

    /// The account was never used for a transaction and holds no code.
    pub open spec fn no_code_and_nonce(self) -> bool {
        self.nonce == 0 && self.code_hash == keccak_empty()
    }

    /// The account is the one that stands for every empty account.
    pub open spec fn is_default(self) -> bool {
        &&& self.balance == zero_word_spec()
        &&& self.nonce == 0
        &&& self.code_hash == keccak_empty()
        &&& self.account_id is None
        &&& self.code matches Some(code) && code_bytes(code) == Seq::<u8>::empty()
    }

    /// Whether the account counts as empty.
    pub fn is_empty(&self) -> (empty: bool)
        ensures
            empty == self.empty(),
    {
        info_is_empty(&self.balance, self.nonce, &self.code_hash)
    }

    /// Whether the account was never used for a transaction and holds no code.
    pub fn has_no_code_and_nonce(&self) -> (none: bool)
        ensures
            none == self.no_code_and_nonce(),
    {
        info_has_no_code_and_nonce(self.nonce, &self.code_hash)
    }
}

impl Default for AccountInfo {
    fn default() -> (info: Self)
        ensures
            info.is_default(),
    {
        AccountInfo {
            balance: zero_word(),
            nonce: 0,
            code_hash: empty_code_hash(),
            account_id: None,
            code: Some(empty_code()),
        }
    }
}

/// A storage slot before and after a change.
#[derive(Debug, Clone, Copy, PartialEq, Eq)]
pub struct StorageSlot {
    /// The value before.
    pub original_value: U256,
    /// The value after.
    pub present_value: U256,
}

impl StorageSlot {
    /// The value changed.
    pub open spec fn changed(self) -> bool {
        self.original_value != self.present_value
    }

    /// A slot that was read but not changed.
    pub fn new(original: U256) -> (slot: Self)
        ensures
            slot == (StorageSlot { original_value: original, present_value: original }),
    {
        StorageSlot { original_value: original, present_value: original }
    }

    /// A slot with both values.
    pub fn new_changed(original_value: U256, present_value: U256) -> (slot: Self)
        ensures
            slot == (StorageSlot { original_value, present_value }),
    {
        StorageSlot { original_value, present_value }
    }

    /// Whether the value changed.
    pub fn is_changed(&self) -> (changed: bool)
        ensures
            changed == self.changed(),
    {
        !same_bytes(&self.original_value, &self.present_value)
    }
}

/// Storage slots with their values before and after.
pub type SlotChanges = Vec<(U256, StorageSlot)>;

/// An account as an EVM execution leaves it.
#[derive(Debug, PartialEq, Eq)]
pub struct Account {
    /// Balance, nonce and code after the execution.
    pub info: AccountInfo,
    /// Balance, nonce and code before the execution.
    pub original_info: AccountInfo,
    /// The slots that were read or written.
    pub storage: SlotChanges,
    /// The account has to be written back.
    pub touched: bool,
    /// The account was created.
    pub created: bool,
    /// The account destroyed itself.
    pub selfdestructed: bool,
    /// The account destroyed itself in the transaction that left it so.
    pub selfdestructed_locally: bool,
    /// The database had no such account.
    pub loaded_as_not_existing: bool,
}

/// How one account changed between two states.
#[derive(Debug, PartialEq, Eq)]
pub struct Transition {
    /// The account after the change, if it exists.
    pub info: Option<AccountInfo>,
    /// Its status after the change.
    pub status: AccountStatus,
    /// The account before the change, if it existed.
    pub previous_info: Option<AccountInfo>,
    /// Its status before the change.
    pub previous_status: AccountStatus,
    /// The slots that were read or written, if the account still exists.
    pub storage: Option<SlotChanges>,
    /// The change destroyed the storage.
    pub storage_was_destroyed: bool,
}

/// The slots of a list that changed.
pub open spec fn only_changed(slots: Seq<(U256, StorageSlot)>) -> Seq<(U256, StorageSlot)> {
    slots.filter(|slot: (U256, StorageSlot)| slot.1.changed())
}

/// An account transition whose storage lists exactly the changed slots.
#[derive(Debug, PartialEq, Eq)]
pub struct OwnedTransition {
    /// The account after the change, if it exists.
    pub info: Option<AccountInfo>,
    /// Its status after the change.
    pub status: AccountStatus,
    /// The account before the change, if it existed.
    pub previous_info: Option<AccountInfo>,
    /// Its status before the change.
    pub previous_status: AccountStatus,
    /// The slots that changed.
    pub storage: SlotChanges,
    /// The change destroyed the storage.
    pub storage_was_destroyed: bool,
}

/// Keeps the changed slots of a transition.
pub fn into_owned_transition(transition: Transition) -> (owned: OwnedTransition)
    ensures
        owned.info == transition.info,
        owned.status == transition.status,
        owned.previous_info == transition.previous_info,
        owned.previous_status == transition.previous_status,
        owned.storage_was_destroyed == transition.storage_was_destroyed,
        owned.storage@ == (match transition.storage {
            Some(storage) => only_changed(storage@),
            None => Seq::empty(),
        }),
{
    let Transition {
        info,
        status,
        previous_info,
        previous_status,
        storage,
        storage_was_destroyed,
    } = transition;
    let mut changed: SlotChanges = Vec::new();
    if let Some(storage) = storage {
        let mut i: usize = 0;
        proof {
            reveal(Seq::filter);
        }
        while i < storage.len()
            invariant
                i <= storage.len(),
                changed@ == only_changed(storage@.take(i as int)),
            decreases storage.len() - i,
        {
            let (key, slot) = storage[i];
            proof {
                reveal(Seq::filter);
                assert(storage@.take(i + 1).drop_last() =~= storage@.take(i as int));
            }
            if slot.is_changed() {
                changed.push((key, StorageSlot::new_changed(slot.original_value, slot.present_value)));
            }
            i = i + 1;
        }
        assert(storage@.take(i as int) =~= storage@);
    }
    OwnedTransition {
        info,
        status,
        previous_info,
        previous_status,
        storage: changed,
        storage_was_destroyed,
    }
}

/// Turns a transition with changed slots back into one with slots.
pub fn into_revm_transition(transition: OwnedTransition) -> (result: Transition)
    ensures
        result == (Transition {
            info: transition.info,
            status: transition.status,
            previous_info: transition.previous_info,
            previous_status: transition.previous_status,
            storage: Some(transition.storage),
            storage_was_destroyed: transition.storage_was_destroyed,
        }),
{
    Transition {
        info: transition.info,
        status: transition.status,
        previous_info: transition.previous_info,
        previous_status: transition.previous_status,
        storage: Some(transition.storage),
        storage_was_destroyed: transition.storage_was_destroyed,
    }
}

/// Turning an owned transition back and keeping its changed slots again gives the same transition,
/// as long as every slot in it changed.
pub proof fn law_owned_transition_round_trip(slots: Seq<(U256, StorageSlot)>)
    ensures
        only_changed(only_changed(slots)) == only_changed(slots),
    decreases slots.len(),
{
    reveal(Seq::filter);
    if slots.len() > 0 {
        law_owned_transition_round_trip(slots.drop_last());
        if slots.last().1.changed() {
            assert(only_changed(slots) == only_changed(slots.drop_last()).push(slots.last()));
            assert(only_changed(slots).drop_last() =~= only_changed(slots.drop_last()));
        }
    }
}

/// Keeping the changed slots of a list keeps exactly the entries whose value differs from the one
/// before, as they are.
pub proof fn law_changed_slots_are_kept(
    slots: Seq<(U256, StorageSlot)>,
    entry: (U256, StorageSlot),
)
    ensures
        only_changed(slots).contains(entry) <==> slots.contains(entry) && entry.1.original_value
            != entry.1.present_value,
        only_changed(slots).len() <= slots.len(),
        (forall|i: int|
            0 <= i < slots.len() ==> (#[trigger] slots[i]).1.original_value
                != slots[i].1.present_value) ==> only_changed(slots) == slots,
    decreases slots.len(),
{
    reveal(Seq::filter);
    if slots.len() > 0 {
        let rest = slots.drop_last();
        let kept = only_changed(rest);
        law_changed_slots_are_kept(rest, entry);
        let last = slots.last();
        assert(slots == rest.push(last));
        if rest.contains(entry) {
            let i = choose|i: int| 0 <= i < rest.len() && rest[i] == entry;
            assert(slots[i] == entry);
        }
        if slots.contains(entry) && entry != last {
            let i = choose|i: int| 0 <= i < slots.len() && slots[i] == entry;
            assert(rest[i] == entry);
        }
        assert(slots[slots.len() - 1] == last);
        if last.1.changed() {
            assert(only_changed(slots) == kept.push(last));
            assert(kept.push(last)[kept.len() as int] == last);
            if kept.contains(entry) {
                let i = choose|i: int| 0 <= i < kept.len() && kept[i] == entry;
                assert(kept.push(last)[i] == entry);
            }
            if kept.push(last).contains(entry) && entry != last {
                let i = choose|i: int| 0 <= i < kept.len() + 1 && kept.push(last)[i] == entry;
                assert(kept[i] == entry);
            }
        }
        if forall|i: int|
            0 <= i < slots.len() ==> (#[trigger] slots[i]).1.original_value
                != slots[i].1.present_value {
            assert forall|i: int| 0 <= i < rest.len() implies (
            #[trigger] rest[i]).1.original_value != rest[i].1.present_value by {
                assert(rest[i] == slots[i]);
            }
        }
    }
}

} // verus!
