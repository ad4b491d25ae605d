//! The account transitions of a block, merged per account.

use crate::account::{AccountInfo, StorageSlot, Transition};
use crate::primitives::{Address, U256};
use revm_database::{AccountStatus, TransitionAccount, TransitionState};
use revm_state::{EvmStorageSlot, TransactionId};
use std::borrow::Cow;
use vstd::prelude::*;

verus! {

#[verifier::external_type_specification]
#[verifier::external_body]
pub struct ExTransitionState(TransitionState);

/// The changes of one account since the last merge into a bundle.
#[verifier::ext_equal]
pub struct PendingTransition {
    /// The account after the changes, if it exists.
    pub info: Option<AccountInfo>,
    /// Its status after the changes.
    pub status: AccountStatus,
    /// The account before the changes, if it existed.
    pub previous_info: Option<AccountInfo>,
    /// Its status before the changes.
    pub previous_status: AccountStatus,
    /// The slots whose value differs from the one before the changes.
    pub storage: Map<U256, StorageSlot>,
    /// One of the changes destroyed the storage.
    pub storage_was_destroyed: bool,
}

/// The merged transition of every account that a [`TransitionState`] holds.
pub uninterp spec fn pending(state: TransitionState) -> Map<Address, PendingTransition>;

/// No account changed.
pub open spec fn nothing_pending() -> Map<Address, PendingTransition> {
    Map::empty()
}

/// A list of slots as a map; of a slot that is listed twice the last entry counts.
pub open spec fn slot_map(slots: Seq<(U256, StorageSlot)>) -> Map<U256, StorageSlot>
    decreases slots.len(),
{
    if slots.len() == 0 {
        Map::empty()
    } else {
        slot_map(slots.drop_last()).insert(slots.last().0, slots.last().1)
    }
}

/// The slots that a transition changes.
pub open spec fn changed_slots(transition: Transition) -> Map<U256, StorageSlot> {
    match transition.storage {
        None => Map::empty(),
        Some(slots) => {
            let all = slot_map(slots@);
            all.restrict(
                Set::new(|slot: U256| all.contains_key(slot) && all[slot].changed()),
            )
        },
    }
}

/// The status of an account that destroyed itself.
pub open spec fn is_destroyed(status: AccountStatus) -> bool {
    status == AccountStatus::Destroyed || status == AccountStatus::DestroyedAgain
}

impl PendingTransition {
    /// The first change of an account.
    pub open spec fn first(transition: Transition) -> PendingTransition {
        PendingTransition {
            info: transition.info,
            status: transition.status,
            previous_info: transition.previous_info,
            previous_status: transition.previous_status,
            storage: changed_slots(transition),
            storage_was_destroyed: transition.storage_was_destroyed,
        }
    }

    /// The slots after a later change that does not destroy the account: a slot keeps the value
    /// from before the first change, and is dropped once that value is back.
    pub open spec fn merged_storage(
        self,
        changed: Map<U256, StorageSlot>,
    ) -> Map<U256, StorageSlot> {
        Map::new(
            |slot: U256|
                if changed.contains_key(slot) && self.storage.contains_key(slot) {
                    self.storage[slot].original_value != changed[slot].present_value
                } else {
                    changed.contains_key(slot) || self.storage.contains_key(slot)
                },
            |slot: U256|
                if changed.contains_key(slot) && self.storage.contains_key(slot) {
                    StorageSlot {
                        original_value: self.storage[slot].original_value,
                        present_value: changed[slot].present_value,
                    }
                } else if changed.contains_key(slot) {
                    changed[slot]
                } else {
                    self.storage[slot]
                },
        )
    }

    /// With a later change of the same account.
    pub open spec fn merged(self, transition: Transition) -> PendingTransition {
        PendingTransition {
            info: transition.info,
            status: transition.status,
            previous_info: self.previous_info,
            previous_status: self.previous_status,
            storage: if is_destroyed(transition.status) {
                changed_slots(transition)
            } else {
                self.merged_storage(changed_slots(transition))
            },
            storage_was_destroyed: self.storage_was_destroyed || is_destroyed(transition.status),
        }
    }
}

/// The merged transitions after one more.
pub open spec fn with_transition(
    before: Map<Address, PendingTransition>,
    address: Address,
    transition: Transition,
) -> Map<Address, PendingTransition> {
    before.insert(
        address,
        if before.contains_key(address) {
            before[address].merged(transition)
        } else {
            PendingTransition::first(transition)
        },
    )
}

/// The merged transitions after a list of further ones.
pub open spec fn with_transitions(
    before: Map<Address, PendingTransition>,
    transitions: Seq<(Address, Transition)>,
) -> Map<Address, PendingTransition>
    decreases transitions.len(),
{
    if transitions.len() == 0 {
        before
    } else {
        with_transition(
            with_transitions(before, transitions.drop_last()),
            transitions.last().0,
            transitions.last().1,
        )
    }
}

/// `TransitionState::default`: no account changed.
#[verifier::external_body]
pub(crate) fn transitions_new() -> (state: TransitionState)
    ensures
        pending(state) == nothing_pending(),
{
    TransitionState::default()
}

/// `TransitionState::add_transition`: keeps the first change of an account as it is, reduced to
/// the slots that changed, and merges every later one into it.
#[verifier::external_body]
pub(crate) fn transitions_add(
    state: &mut TransitionState,
    address: Address,
    transition: Transition,
)
    ensures
        pending(*final(state)) == with_transition(pending(*old(state)), address, transition),
{
    let word = revm_primitives::U256::from_be_bytes::<32>;
    let info = |from: AccountInfo| revm_state::AccountInfo {
        balance: word(from.balance), nonce: from.nonce, code_hash: from.code_hash.into(),
        account_id: from.account_id, code: from.code,
    };
    let slot = |(key, from): (U256, StorageSlot)|
        (word(key), EvmStorageSlot::new_changed(word(from.original_value), word(from.present_value), TransactionId::ZERO));
    state.add_transition(address.into(), TransitionAccount {
        info: transition.info.map(info), status: transition.status,
        previous_info: transition.previous_info.map(info), previous_status: transition.previous_status,
        storage: transition.storage.map(|slots| Cow::Owned(slots.into_iter().map(slot).collect())),
        storage_was_destroyed: transition.storage_was_destroyed,
    });
}

/// `TransitionState::take`: hands the transitions out and leaves none.
pub assume_specification[ TransitionState::take ](state: &mut TransitionState) -> (taken:
    TransitionState)
    ensures
        pending(taken) == pending(*old(state)),
        pending(*final(state)) == nothing_pending(),
;

/// Adds transitions one after the other.
pub(crate) fn add_all(state: &mut TransitionState, transitions: Vec<(Address, Transition)>)
    ensures
        pending(*final(state)) == with_transitions(pending(*old(state)), transitions@),
{
    let ghost before = pending(*state);
    let ghost listed = transitions@;
    assert(listed.take(0) =~= Seq::<(Address, Transition)>::empty());
    for item in iter: transitions
        invariant
            iter.seq() == listed,
            pending(*state) == with_transitions(before, listed.take(iter.index() as int)),
    {
        let ghost done = iter.index() as int;
        assert(listed.take(done + 1).drop_last() =~= listed.take(done));
        let (address, transition) = item;
        transitions_add(state, address, transition);
    }
    assert(listed.take(listed.len() as int) =~= listed);
}

/// Merging further transitions never changes what is known of an account from before its first
/// change, and never forgets an account.
pub proof fn law_previous_state_is_kept(
    before: Map<Address, PendingTransition>,
    transitions: Seq<(Address, Transition)>,
    address: Address,
)
    requires
        before.contains_key(address),
    ensures
        with_transitions(before, transitions).contains_key(address),
        with_transitions(before, transitions)[address].previous_info
            == before[address].previous_info,
        with_transitions(before, transitions)[address].previous_status
            == before[address].previous_status,
    decreases transitions.len(),
{
    if transitions.len() > 0 {
        law_previous_state_is_kept(before, transitions.drop_last(), address);
    }
}

/// Merging transitions in two steps is the same as merging them at once.
pub proof fn law_merging_composes(
    before: Map<Address, PendingTransition>,
    first: Seq<(Address, Transition)>,
    second: Seq<(Address, Transition)>,
)
    ensures
        with_transitions(with_transitions(before, first), second) == with_transitions(
            before,
            first + second,
        ),
    decreases second.len(),
{
    if second.len() == 0 {
        assert(first + second =~= first);
    } else {
        law_merging_composes(before, first, second.drop_last());
        assert((first + second).drop_last() =~= first + second.drop_last());
    }
}

/// A list of transitions that does not name an account leaves what is pending for it as it was.
pub proof fn law_other_accounts_stay_as_they_are(
    before: Map<Address, PendingTransition>,
    transitions: Seq<(Address, Transition)>,
    address: Address,
)
    requires
        forall|i: int| 0 <= i < transitions.len() ==> (#[trigger] transitions[i]).0 != address,
    ensures
        with_transitions(before, transitions).contains_key(address) == before.contains_key(address),
        before.contains_key(address) ==> with_transitions(before, transitions)[address]
            == before[address],
    decreases transitions.len(),
{
    if transitions.len() > 0 {
        assert forall|i: int| 0 <= i < transitions.drop_last().len() implies (
        #[trigger] transitions.drop_last()[i]).0 != address by {
            assert(transitions.drop_last()[i] == transitions[i]);
        }
        law_other_accounts_stay_as_they_are(before, transitions.drop_last(), address);
        assert(transitions[transitions.len() - 1].0 != address);
    }
}

/// A list of transitions that names an account once leaves it with that transition: its account and
/// status; and, from before the first change, what was known already or what the transition says.
pub proof fn law_transition_reaches_its_account(
    before: Map<Address, PendingTransition>,
    transitions: Seq<(Address, Transition)>,
    at: int,
)
    requires
        0 <= at < transitions.len(),
        forall|i: int|
            0 <= i < transitions.len() && i != at ==> (#[trigger] transitions[i]).0
                != transitions[at].0,
    ensures
        ({
            let (address, transition) = transitions[at];
            let after = with_transitions(before, transitions);
            &&& after.contains_key(address)
            &&& after[address].info == transition.info
            &&& after[address].status == transition.status
            &&& if before.contains_key(address) {
                &&& after[address].previous_info == before[address].previous_info
                &&& after[address].previous_status == before[address].previous_status
                &&& before[address].storage_was_destroyed
                    ==> after[address].storage_was_destroyed
            } else {
                &&& after[address].previous_info == transition.previous_info
                &&& after[address].previous_status == transition.previous_status
                &&& after[address].storage_was_destroyed == transition.storage_was_destroyed
            }
        }),
        with_transitions(before, transitions)[transitions[at].0] == with_transition(
            before,
            transitions[at].0,
            transitions[at].1,
        )[transitions[at].0],
    decreases transitions.len(),
{
    let address = transitions[at].0;
    let rest = transitions.drop_last();
    assert forall|i: int| 0 <= i < rest.len() && i != at implies (#[trigger] rest[i]).0
        != address by {
        assert(rest[i] == transitions[i]);
    }
    if at == transitions.len() - 1 {
        law_other_accounts_stay_as_they_are(before, rest, address);
    } else {
        assert(transitions[transitions.len() - 1].0 != address);
        law_transition_reaches_its_account(before, rest, at);
    }
}

/// Where a list of slots names a slot once, the map of the list holds that entry.
proof fn lemma_slot_map(slots: Seq<(U256, StorageSlot)>, slot: U256)
    ensures
        slot_map(slots).contains_key(slot) <==> exists|i: int|
            0 <= i < slots.len() && (#[trigger] slots[i]).0 == slot,
        forall|p: int|
            0 <= p < slots.len() && (#[trigger] slots[p]).0 == slot && (forall|i: int|
                p < i < slots.len() ==> (#[trigger] slots[i]).0 != slot) ==> slot_map(slots)[slot]
                == slots[p].1,
    decreases slots.len(),
{
    if slots.len() > 0 {
        let rest = slots.drop_last();
        lemma_slot_map(rest, slot);
        let end = slots.len() - 1;
        if slots[end].0 == slot {
            assert(slot_map(slots).contains_key(slot));
        } else {
            if slot_map(rest).contains_key(slot) {
                let i = choose|i: int| 0 <= i < rest.len() && (#[trigger] rest[i]).0 == slot;
                assert(slots[i].0 == slot);
            }
            if exists|i: int| 0 <= i < slots.len() && (#[trigger] slots[i]).0 == slot {
                let i = choose|i: int| 0 <= i < slots.len() && (#[trigger] slots[i]).0 == slot;
                assert(rest[i].0 == slot);
            }
        }
        assert forall|p: int|
            0 <= p < slots.len() && (#[trigger] slots[p]).0 == slot && (forall|i: int|
                p < i < slots.len() ==> (#[trigger] slots[i]).0 != slot) implies slot_map(
            slots,
        )[slot] == slots[p].1 by {
            if p < end {
                assert(slots[end].0 != slot);
                assert(rest[p].0 == slot);
                assert forall|i: int| p < i < rest.len() implies (#[trigger] rest[i]).0 != slot by {
                    assert(rest[i] == slots[i]);
                }
            }
        }
    }
}

/// A slot that a list names once is mapped to what the list says of it.
pub proof fn law_slot_listed_once_is_mapped(slots: Seq<(U256, StorageSlot)>, at: int)
    requires
        0 <= at < slots.len(),
        forall|i: int| 0 <= i < slots.len() && i != at ==> (#[trigger] slots[i]).0 != slots[at].0,
    ensures
        slot_map(slots).contains_key(slots[at].0),
        slot_map(slots)[slots[at].0] == slots[at].1,
{
    lemma_slot_map(slots, slots[at].0);
}

/// A transition changes exactly the slots that it lists with a value other than the one before.
pub proof fn law_changed_slots_are_listed(transition: Transition, slot: U256)
    ensures
        transition.storage is None ==> !changed_slots(transition).contains_key(slot),
        transition.storage is Some && (forall|i: int|
            0 <= i < transition.storage->0@.len() ==> (#[trigger] transition.storage->0@[i]).0
                != slot) ==> !changed_slots(transition).contains_key(slot),
        transition.storage is Some ==> forall|p: int|
            0 <= p < transition.storage->0@.len() && (#[trigger] transition.storage->0@[p]).0 == slot
                && (forall|i: int|
                p < i < transition.storage->0@.len() ==> (#[trigger] transition.storage->0@[i]).0
                    != slot) ==> {
                let listed = transition.storage->0@[p].1;
                &&& changed_slots(transition).contains_key(slot) <==> listed.original_value
                    != listed.present_value
                &&& listed.original_value != listed.present_value ==> changed_slots(
                    transition,
                )[slot] == listed
            },
{
    if transition.storage is Some {
        lemma_slot_map(transition.storage->0@, slot);
    }
}

/// A slot that a later change sets back to the value from before the first change is no longer
/// pending; with any other value it stays pending with that first value.
pub proof fn law_restored_slot_is_dropped(
    earlier: PendingTransition,
    transition: Transition,
    slot: U256,
)
    requires
        !is_destroyed(transition.status),
        earlier.storage.contains_key(slot),
        changed_slots(transition).contains_key(slot),
    ensures
        earlier.merged(transition).storage.contains_key(slot) <==> changed_slots(
            transition,
        )[slot].present_value != earlier.storage[slot].original_value,
        earlier.merged(transition).storage.contains_key(slot) ==> earlier.merged(
            transition,
        ).storage[slot] == (StorageSlot {
            original_value: earlier.storage[slot].original_value,
            present_value: changed_slots(transition)[slot].present_value,
        }),
{
}

} // verus!
