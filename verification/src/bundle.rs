//! The bundle: what a block changed, merged from account transitions.

use crate::account::{AccountInfo, StorageSlot};
use crate::primitives::{Address, B256, U256};
use crate::transitions::{pending, PendingTransition};
use revm_database::states::bundle_state::BundleRetention;
use revm_database::{AccountStatus, BundleState, TransitionState};
use revm_state::Bytecode;
use vstd::prelude::*;

verus! {

#[verifier::external_type_specification]
#[verifier::external_body]
pub struct ExBundleState(BundleState);

#[verifier::external_type_specification]
pub struct ExBundleRetention(BundleRetention);

/// What a bundle knows of one account.
#[verifier::ext_equal]
pub struct BundledAccount {
    /// The account as it is now, if it exists.
    pub info: Option<AccountInfo>,
    /// The account as it was before the first change, if it existed.
    pub original_info: Option<AccountInfo>,
    /// Its status.
    pub status: AccountStatus,
    /// Its slots, with the values from before the first change and from now.
    pub storage: Map<U256, StorageSlot>,
}

/// What undoing a merge does to the data of an account.
pub enum InfoRevert {
    /// The data stays.
    Unchanged,
    /// The account did not exist and is removed.
    Removed,
    /// The data is set back.
    Restored(AccountInfo),
}

/// What undoes the changes that a merge made to one account.
#[verifier::ext_equal]
pub struct RevertedAccount {
    /// What becomes of its data.
    pub info: InfoRevert,
    /// The slots that are set back, with their values; those without one are forgotten.
    pub storage: Map<U256, Option<U256>>,
    /// Its status before the merge.
    pub previous_status: AccountStatus,
    /// The merge destroyed its storage.
    pub wipes_storage: bool,
}

/// The accounts of a [`BundleState`].
pub uninterp spec fn bundled(bundle: BundleState) -> Map<Address, BundledAccount>;

/// The size counters of a [`BundleState`] match its accounts.
pub uninterp spec fn sizes_match(bundle: BundleState) -> bool;

/// What `BundleState::size_hint` returns.
pub uninterp spec fn bundle_size(bundle: BundleState) -> usize;

/// The accounts of a bundle after `BundleState::apply_transitions_and_create_reverts`.
pub uninterp spec fn merged_accounts(
    accounts: Map<Address, BundledAccount>,
    transitions: Map<Address, PendingTransition>,
) -> Map<Address, BundledAccount>;

/// The reverts that a [`BundleState`] keeps, one list per merge, of which the order is left out.
pub uninterp spec fn reverts_kept(bundle: BundleState) -> Seq<Map<Address, RevertedAccount>>;

/// The codes that a [`BundleState`] keeps, by their hashes.
pub uninterp spec fn codes_kept(bundle: BundleState) -> Map<B256, Bytecode>;

/// The reverts that `BundleState::apply_transitions_and_create_reverts` creates.
pub uninterp spec fn reverts_created(
    accounts: Map<Address, BundledAccount>,
    transitions: Map<Address, PendingTransition>,
) -> Map<Address, RevertedAccount>;

/// A bundle without reverts.
pub open spec fn no_reverts() -> Seq<Map<Address, RevertedAccount>> {
    Seq::empty()
}

/// A bundle without codes.
pub open spec fn no_codes() -> Map<B256, Bytecode> {
    Map::empty()
}

/// The list of reverts that a merge appends: what it created if reverts are asked for, and an empty
/// one if not.
pub open spec fn reverts_appended(
    created: Map<Address, RevertedAccount>,
    retention: BundleRetention,
) -> Map<Address, RevertedAccount> {
    if retention == BundleRetention::Reverts {
        created
    } else {
        Map::empty()
    }
}

/// A bundle without accounts.
pub open spec fn no_accounts() -> Map<Address, BundledAccount> {
    Map::empty()
}

/// An account of the one status can become one of the other status by a merge.
pub open spec fn mergeable(from: AccountStatus, to: AccountStatus) -> bool {
    match to {
        AccountStatus::Changed => {
            ||| from == AccountStatus::Changed
            ||| from == AccountStatus::Loaded
            ||| from == AccountStatus::LoadedEmptyEIP161
        },
        AccountStatus::InMemoryChange => {
            ||| from == AccountStatus::Loaded
            ||| from == AccountStatus::InMemoryChange
            ||| from == AccountStatus::LoadedEmptyEIP161
            ||| from == AccountStatus::LoadedNotExisting
        },
        AccountStatus::Destroyed => {
            ||| from == AccountStatus::InMemoryChange
            ||| from == AccountStatus::Changed
            ||| from == AccountStatus::Loaded
            ||| from == AccountStatus::LoadedEmptyEIP161
            ||| from == AccountStatus::LoadedNotExisting
        },
        _ => true,
    }
}

/// Decides whether an account of the one status can become one of the other status by a merge.
fn can_merge_status(from: AccountStatus, to: AccountStatus) -> (can: bool)
    ensures
        can == mergeable(from, to),
{
    match to {
        AccountStatus::Changed => match from {
            AccountStatus::Changed
            | AccountStatus::Loaded
            | AccountStatus::LoadedEmptyEIP161 => true,
            _ => false,
        },
        AccountStatus::InMemoryChange => match from {
            AccountStatus::Loaded
            | AccountStatus::InMemoryChange
            | AccountStatus::LoadedEmptyEIP161
            | AccountStatus::LoadedNotExisting => true,
            _ => false,
        },
        AccountStatus::Destroyed => match from {
            AccountStatus::InMemoryChange
            | AccountStatus::Changed
            | AccountStatus::Loaded
            | AccountStatus::LoadedEmptyEIP161
            | AccountStatus::LoadedNotExisting => true,
            _ => false,
        },
        _ => true,
    }
}

/// The status from which a merge starts: the bundle's, or for an account that the bundle does not
/// hold, the one from before its pending changes.
pub open spec fn status_before(
    accounts: Map<Address, BundledAccount>,
    transitions: Map<Address, PendingTransition>,
    address: Address,
) -> AccountStatus {
    if accounts.contains_key(address) {
        accounts[address].status
    } else {
        transitions[address].previous_status
    }
}

/// Every pending change can be merged.
pub open spec fn all_mergeable(
    accounts: Map<Address, BundledAccount>,
    transitions: Map<Address, PendingTransition>,
) -> bool {
    forall|address: Address| #[trigger]
        transitions.contains_key(address) ==> mergeable(
            status_before(accounts, transitions, address),
            transitions[address].status,
        )
}

/// The status of an account that was changed and exists.
pub open spec fn leaves_existing(status: AccountStatus) -> bool {
    ||| status == AccountStatus::Changed
    ||| status == AccountStatus::InMemoryChange
    ||| status == AccountStatus::DestroyedChanged
}

/// What holds of every merge: an account without pending changes stays as it is; one that the
/// bundle holds keeps what it was before its first change, and takes over the data and the status
/// of a change that leaves it existing.
pub open spec fn merges(
    before: Map<Address, BundledAccount>,
    transitions: Map<Address, PendingTransition>,
    after: Map<Address, BundledAccount>,
) -> bool {
    &&& forall|address: Address|
        !transitions.contains_key(address) ==> {
            &&& #[trigger] after.contains_key(address) == before.contains_key(address)
            &&& after.contains_key(address) ==> after[address] == before[address]
        }
    &&& forall|address: Address| #[trigger]
        before.contains_key(address) ==> {
            &&& after.contains_key(address)
            &&& after[address].original_info == before[address].original_info
            &&& transitions.contains_key(address) && leaves_existing(transitions[address].status)
                ==> {
                &&& after[address].info == transitions[address].info
                &&& after[address].status == transitions[address].status
            }
        }
}

/// The data of an account before a merge.
pub open spec fn info_before(
    accounts: Map<Address, BundledAccount>,
    transitions: Map<Address, PendingTransition>,
    address: Address,
) -> Option<AccountInfo> {
    if accounts.contains_key(address) {
        accounts[address].info
    } else {
        transitions[address].previous_info
    }
}

/// The slots that a bundle holds of an account.
pub open spec fn slots_held(
    accounts: Map<Address, BundledAccount>,
    address: Address,
) -> Map<U256, StorageSlot> {
    if accounts.contains_key(address) {
        accounts[address].storage
    } else {
        Map::empty()
    }
}

/// Balance, nonce and code hash are the same.
pub open spec fn same_data(a: Option<AccountInfo>, b: Option<AccountInfo>) -> bool {
    match (a, b) {
        (Some(a), Some(b)) => {
            &&& a.balance == b.balance
            &&& a.nonce == b.nonce
            &&& a.code_hash == b.code_hash
        },
        (None, None) => true,
        _ => false,
    }
}

/// The status of an account that was changed without being destroyed.
pub open spec fn only_changed(status: AccountStatus) -> bool {
    status == AccountStatus::Changed || status == AccountStatus::InMemoryChange
}

/// Every changed slot with its value from before the change.
pub open spec fn values_before(slots: Map<U256, StorageSlot>) -> Map<U256, Option<U256>> {
    Map::new(
        |slot: U256| slots.contains_key(slot) && slots[slot].changed(),
        |slot: U256| Some(slots[slot].original_value),
    )
}

/// Every slot with its value from now.
pub open spec fn values_now(slots: Map<U256, StorageSlot>) -> Map<U256, Option<U256>> {
    Map::new(
        |slot: U256| slots.contains_key(slot),
        |slot: U256| Some(slots[slot].present_value),
    )
}

/// The revert of one account undoes its pending change: it knows the status from before, and where
/// it sets the data back, sets it back to the data from before. Of an account that was changed it
/// sets every changed slot back, removes the account if it did not exist, and leaves the data alone
/// only if it did not change; of one that was destroyed it sets back every slot that the bundle held.
pub open spec fn undoes(
    accounts: Map<Address, BundledAccount>,
    transitions: Map<Address, PendingTransition>,
    address: Address,
    revert: RevertedAccount,
) -> bool {
    let change = transitions[address];
    &&& transitions.contains_key(address)
    &&& revert.previous_status == status_before(accounts, transitions, address)
    &&& revert.info matches InfoRevert::Restored(info) ==> (info_before(
        accounts,
        transitions,
        address,
    ) matches Some(known) ==> info == known)
    &&& only_changed(change.status) ==> {
        &&& revert.storage == values_before(change.storage)
        &&& !revert.wipes_storage
        &&& revert.info is Removed <==> revert.previous_status == AccountStatus::LoadedNotExisting
        &&& revert.info is Unchanged <==> {
            &&& revert.previous_status != AccountStatus::LoadedNotExisting
            &&& same_data(info_before(accounts, transitions, address), change.info)
        }
    }
    &&& change.status == AccountStatus::Destroyed ==> {
        &&& revert.storage == values_now(slots_held(accounts, address))
        &&& revert.wipes_storage
    }
}

/// A pending change has to be undone: it changed the data or a slot of an account that it did not
/// destroy, or it destroyed one that existed.
pub open spec fn needs_revert(
    accounts: Map<Address, BundledAccount>,
    transitions: Map<Address, PendingTransition>,
    address: Address,
) -> bool {
    let change = transitions[address];
    &&& transitions.contains_key(address)
    &&& {
        ||| only_changed(change.status) && !same_data(
            info_before(accounts, transitions, address),
            change.info,
        )
        ||| only_changed(change.status) && exists|slot: U256|
            change.storage.contains_key(slot) && (#[trigger] change.storage[slot]).changed()
        ||| change.status == AccountStatus::Destroyed && status_before(
            accounts,
            transitions,
            address,
        ) != AccountStatus::LoadedNotExisting
    }
}

/// What holds of the reverts of every merge: each undoes the change of its account, and none is
/// missing.
pub open spec fn reverts_merge(
    accounts: Map<Address, BundledAccount>,
    transitions: Map<Address, PendingTransition>,
    created: Map<Address, RevertedAccount>,
) -> bool {
    &&& forall|address: Address| #[trigger]
        created.contains_key(address) ==> undoes(
            accounts,
            transitions,
            address,
            created[address],
        )
    &&& forall|address: Address| #[trigger]
        needs_revert(accounts, transitions, address) ==> created.contains_key(address)
}

/// The hash and the code that a pending change brings: the hash differs from the one before, and the
/// code is there.
pub open spec fn new_code(change: PendingTransition) -> Option<(B256, Bytecode)> {
    match change.info {
        Some(info) => match info.code {
            Some(code) => if change.previous_info is Some && change.previous_info->0.code_hash
                == info.code_hash {
                None
            } else {
                Some((info.code_hash, code))
            },
            None => None,
        },
        None => None,
    }
}

/// A pending change of the account brings a code with this hash.
pub open spec fn brings_code(
    transitions: Map<Address, PendingTransition>,
    address: Address,
    hash: B256,
) -> bool {
    &&& transitions.contains_key(address)
    &&& new_code(transitions[address]) matches Some((brought, _)) && brought == hash
}

/// What holds of the codes of every merge: those that pending changes bring are added, each with
/// one of the codes brought under its hash, and the others stay.
pub open spec fn codes_merge(
    before: Map<B256, Bytecode>,
    transitions: Map<Address, PendingTransition>,
    after: Map<B256, Bytecode>,
) -> bool {
    forall|hash: B256|
        if exists|address: Address| #[trigger] brings_code(transitions, address, hash) {
            #[trigger] after.contains_key(hash) && exists|address: Address|
                #[trigger] brings_code(transitions, address, hash) && new_code(
                    transitions[address],
                ) == Some((hash, after[hash]))
        } else {
            &&& after.contains_key(hash) == before.contains_key(hash)
            &&& after.contains_key(hash) ==> after[hash] == before[hash]
        }
}

/// `BundleState::default`: no accounts, no reverts and no codes.
#[verifier::external_body]
pub(crate) fn bundle_new() -> (bundle: BundleState)
    ensures
        bundled(bundle) == no_accounts(),
        reverts_kept(bundle) == no_reverts(),
        codes_kept(bundle) == no_codes(),
        sizes_match(bundle),
{
    BundleState::default()
}

/// `BundleState::size_hint`: a function of the bundle.
#[verifier::external_body]
pub(crate) fn bundle_size_of(bundle: &BundleState) -> (size: usize)
    requires
        sizes_match(*bundle),
    ensures
        size == bundle_size(*bundle),
{
    bundle.size_hint()
}

/// `BundleState::account`: the account at an address, if the bundle holds it, of which the status
/// is picked.
#[verifier::external_body]
fn bundle_status(bundle: &BundleState, address: Address) -> (status: Option<AccountStatus>)
    ensures
        status == (if bundled(*bundle).contains_key(address) {
            Some(bundled(*bundle)[address].status)
        } else {
            None
        }),
{
    bundle.account(&address.into()).map(|account| account.status)
}

/// The field `transitions` of a [`TransitionState`]: every changed account once, with its status
/// before and after the changes.
#[verifier::external_body]
fn pending_statuses(transitions: &TransitionState) -> (list: Vec<
    (Address, AccountStatus, AccountStatus),
>)
    ensures
        forall|i: int|
            0 <= i < list@.len() ==> {
                &&& pending(*transitions).contains_key((#[trigger] list@[i]).0)
                &&& list@[i].1 == pending(*transitions)[list@[i].0].previous_status
                &&& list@[i].2 == pending(*transitions)[list@[i].0].status
            },
        forall|address: Address| #[trigger]
            pending(*transitions).contains_key(address) ==> exists|i: int|
                0 <= i < list@.len() && (#[trigger] list@[i]).0 == address,
{
    let changes = transitions.transitions.iter();
    changes.map(|(address, change)| (address.into_array(), change.previous_status, change.status)).collect()
}

/// `BundleState::apply_transitions_and_create_reverts`: merges every pending change into its
/// account. The accounts that result are a function of the accounts and changes before, and
/// [`merges`] holds of them. One list of reverts is appended: where reverts are asked for, those that
/// the merge created, a function of the same accounts and changes of which [`reverts_merge`] holds,
/// in no particular order; an empty one where not. The codes that the changes bring are added. The
/// function panics on a change of status that is not mergeable, and counts sizes down, so they have
/// to match.
#[verifier::external_body]
pub(crate) fn bundle_merge(
    bundle: &mut BundleState,
    transitions: TransitionState,
    retention: BundleRetention,
)
    requires
        sizes_match(*old(bundle)),
        all_mergeable(bundled(*old(bundle)), pending(transitions)),
    ensures
        sizes_match(*final(bundle)),
        bundled(*final(bundle)) == merged_accounts(bundled(*old(bundle)), pending(transitions)),
        merges(bundled(*old(bundle)), pending(transitions), bundled(*final(bundle))),
        reverts_kept(*final(bundle)) == reverts_kept(*old(bundle)).push(
            reverts_appended(
                reverts_created(bundled(*old(bundle)), pending(transitions)),
                retention,
            ),
        ),
        retention == BundleRetention::Reverts ==> reverts_merge(
            bundled(*old(bundle)),
            pending(transitions),
            reverts_kept(*final(bundle)).last(),
        ),
        codes_merge(codes_kept(*old(bundle)), pending(transitions), codes_kept(*final(bundle))),
{
    bundle.apply_transitions_and_create_reverts(transitions, retention)
}

/// Decides whether every pending change can be merged into a bundle.
pub fn can_merge(bundle: &BundleState, transitions: &TransitionState) -> (can: bool)
    ensures
        can == all_mergeable(bundled(*bundle), pending(*transitions)),
{
    let changes: Vec<(Address, AccountStatus, AccountStatus)> = pending_statuses(transitions);
    let ghost accounts = bundled(*bundle);
    let ghost merging = pending(*transitions);
    let mut i: usize = 0;
    while i < changes.len()
        invariant
            i <= changes.len(),
            accounts == bundled(*bundle),
            merging == pending(*transitions),
            forall|k: int|
                0 <= k < changes@.len() ==> {
                    &&& merging.contains_key((#[trigger] changes@[k]).0)
                    &&& changes@[k].1 == merging[changes@[k].0].previous_status
                    &&& changes@[k].2 == merging[changes@[k].0].status
                },
            forall|k: int|
                0 <= k < i ==> mergeable(
                    status_before(accounts, merging, (#[trigger] changes@[k]).0),
                    merging[changes@[k].0].status,
                ),
        decreases changes.len() - i,
    {
        let (address, previous, status) = changes[i];
        let from: AccountStatus = match bundle_status(bundle, address) {
            Some(held) => held,
            None => previous,
        };
        assert(merging.contains_key(changes@[i as int].0));
        assert(from == status_before(accounts, merging, address));
        if !can_merge_status(from, status) {
            return false;
        }
        i = i + 1;
    }
    assert forall|address: Address| #[trigger] merging.contains_key(address) implies mergeable(
        status_before(accounts, merging, address),
        merging[address].status,
    ) by {
        let k = choose|k: int| 0 <= k < changes@.len() && (#[trigger] changes@[k]).0 == address;
        assert(changes@[k].0 == address);
    }
    true
}

} // verus!
