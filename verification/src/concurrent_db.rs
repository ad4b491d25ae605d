//! Concurrent parent-state database primitives.
//!
//! Parallel execution needs two properties that a typical storage provider does not offer on its
//! own: each worker needs an independent database handle, while identical cold reads should be
//! coalesced across workers. [`ConcurrentDatabase`] combines a [`DatabaseFactory`] with a shared
//! [`ReadCache`] to provide both properties without coupling Grevm to a particular storage engine.

use crate::account::AccountInfo;
use crate::primitives::{
    account_key, account_key_spec, code_key, code_key_spec, number_key, number_key_spec, slot_key,
    slot_key_spec, Address, Key, B256, U256,
};
use crate::table::Table;
use revm_state::Bytecode;
use vstd::prelude::*;

verus! {

/// A value that database reads answer with.
pub trait Answer: Sized {
    /// The same value once more.
    fn again(&self) -> (copy: Self)
        ensures
            copy == *self,
    ;
}

impl Answer for Option<AccountInfo> {
    fn again(&self) -> (copy: Self) {
        match self {
            Some(info) => Some(info.clone()),
            None => None,
        }
    }
}

impl Answer for Bytecode {
    fn again(&self) -> (copy: Self) {
        self.clone()
    }
}

impl Answer for [u8; 32] {
    fn again(&self) -> (copy: Self) {
        *self
    }
}

/// The state of one read.
#[derive(Debug)]
pub enum Flight<V, E> {
    /// No result, and nobody is loading one.
    Idle,
    /// A worker is loading the result.
    Loading,
    /// The result: a value or an error.
    Done(Result<V, E>),
}

/// What a worker does to get the result of a read.
#[derive(Debug)]
pub enum LoadStep<V, E> {
    /// The result is there.
    Ready(Result<V, E>),
    /// Load the result and hand it over.
    Load,
    /// Another worker is loading the result; ask again when it is done.
    Wait,
}

/// A result as it is handed out: the same value, or a clone of the error.
pub open spec fn hands_out<V, E: Clone>(result: Result<V, E>, answer: Result<V, E>) -> bool {
    match (result, answer) {
        (Ok(value), Ok(answer)) => answer == value,
        (Err(error), Err(answer)) => cloned(error, answer),
        _ => false,
    }
}

/// A result handed out.
fn hand_out<V: Answer, E: Clone>(result: &Result<V, E>) -> (answer: Result<V, E>)
    ensures
        hands_out(*result, answer),
{
    match result {
        Ok(value) => Ok(value.again()),
        Err(error) => Err(error.clone()),
    }
}

/// The reads after a value was seeded: a read that is already known is not replaced.
pub open spec fn seeded<V, E>(
    reads: Map<Key, Flight<V, E>>,
    key: Key,
    value: V,
) -> Map<Key, Flight<V, E>> {
    if reads.contains_key(key) {
        reads
    } else {
        reads.insert(key, Flight::Done(Ok(value)))
    }
}

/// The state of a read; one that nobody asked for is idle.
pub open spec fn flight_of<V, E>(reads: Map<Key, Flight<V, E>>, key: Key) -> Flight<V, E> {
    if reads.contains_key(key) {
        reads[key]
    } else {
        Flight::Idle
    }
}

/// The reads after a worker asked for one.
pub open spec fn asked<V, E>(reads: Map<Key, Flight<V, E>>, key: Key) -> Map<Key, Flight<V, E>> {
    if flight_of(reads, key) is Idle {
        reads.insert(key, Flight::Loading)
    } else {
        reads
    }
}

/// What a worker that asks for a read is told.
pub open spec fn tells<V, E: Clone>(flight: Flight<V, E>, step: LoadStep<V, E>) -> bool {
    match (flight, step) {
        (Flight::Idle, LoadStep::Load) => true,
        (Flight::Loading, LoadStep::Wait) => true,
        (Flight::Done(result), LoadStep::Ready(answer)) => hands_out(result, answer),
        _ => false,
    }
}

/// The list holds every read that succeeded once, with its value.
pub open spec fn lists_successful<V, E>(
    reads: Map<Key, Flight<V, E>>,
    list: Seq<(Key, V)>,
) -> bool {
    &&& forall|i: int|
        0 <= i < list.len() ==> reads.contains_pair(
            (#[trigger] list[i]).0,
            Flight::Done(Ok(list[i].1)),
        )
    &&& forall|key: Key|
        reads.contains_key(key) && (#[trigger] reads[key]) is Done && reads[key]->Done_0 is Ok
            ==> exists|i: int| 0 <= i < list.len() && (#[trigger] list[i]).0 == key
    &&& forall|i: int, j: int|
        0 <= i < j < list.len() ==> (#[trigger] list[i]).0 != (#[trigger] list[j]).0
}

/// Seeds a read if it is not already known.
fn insert_cached<V, E>(reads: &mut Table<Flight<V, E>>, key: Key, value: V) -> (inserted: bool)
    requires
        old(reads).wf(),
    ensures
        final(reads).wf(),
        final(reads)@ == seeded(old(reads)@, key, value),
        inserted == !old(reads)@.contains_key(key),
{
    if reads.contains_key(&key) {
        false
    } else {
        reads.insert(key, Flight::Done(Ok(value)));
        true
    }
}

/// Asks for a read.
fn begin_load<V: Answer, E: Clone>(reads: &mut Table<Flight<V, E>>, key: Key) -> (step: LoadStep<
    V,
    E,
>)
    requires
        old(reads).wf(),
    ensures
        final(reads).wf(),
        final(reads)@ == asked(old(reads)@, key),
        tells(flight_of(old(reads)@, key), step),
{
    match reads.get(&key) {
        Some(Flight::Done(result)) => {
            return LoadStep::Ready(hand_out(result));
        },
        Some(Flight::Loading) => {
            return LoadStep::Wait;
        },
        _ => {},
    }
    reads.insert(key, Flight::Loading);
    LoadStep::Load
}

/// Hands the result of a read over.
fn finish_load<V: Answer, E: Clone>(
    reads: &mut Table<Flight<V, E>>,
    key: Key,
    result: Result<V, E>,
) -> (answer: Result<V, E>)
    requires
        old(reads).wf(),
    ensures
        final(reads).wf(),
        final(reads)@ == old(reads)@.insert(key, Flight::Done(result)),
        hands_out(result, answer),
{
    let answer = hand_out(&result);
    reads.insert(key, Flight::Done(result));
    answer
}

/// The reads after a worker gave up loading one: the next worker that asks loads it.
pub open spec fn abandoned<V, E>(
    reads: Map<Key, Flight<V, E>>,
    key: Key,
) -> Map<Key, Flight<V, E>> {
    if flight_of(reads, key) is Loading {
        reads.insert(key, Flight::Idle)
    } else {
        reads
    }
}

/// Gives up loading a read.
fn abandon_load<V, E>(reads: &mut Table<Flight<V, E>>, key: Key)
    requires
        old(reads).wf(),
    ensures
        final(reads).wf(),
        final(reads)@ == abandoned(old(reads)@, key),
{
    let loading: bool = match reads.get(&key) {
        Some(Flight::Loading) => true,
        _ => false,
    };
    if loading {
        reads.insert(key, Flight::Idle);
    }
}

/// The result of a read: the known one, or else the one that `load` gives, which is known from
/// then on.
fn cached<V: Answer, E: Clone, F: FnOnce() -> Result<V, E>>(
    reads: &mut Table<Flight<V, E>>,
    key: Key,
    load: F,
) -> (answer: Result<V, E>)
    requires
        old(reads).wf(),
        flight_of(old(reads)@, key) !is Loading,
        flight_of(old(reads)@, key) is Idle ==> call_requires(load, ()),
    ensures
        final(reads).wf(),
        loads(old(reads)@, key, load, final(reads)@, answer),
{
    let ghost before = reads@;
    match begin_load(reads, key) {
        LoadStep::Ready(answer) => answer,
        _ => {
            let result = load();
            let ghost loaded = result;
            let answer = finish_load(reads, key, result);
            assert(call_ensures(load, (), loaded));
            assert(reads@ =~= before.insert(key, Flight::Done(loaded)));
            answer
        },
    }
}

/// How reading through the cache turns the reads into `after`: a known result is handed out, and
/// any other is loaded and known from then on.
pub open spec fn loads<V, E: Clone, F: FnOnce() -> Result<V, E>>(
    reads: Map<Key, Flight<V, E>>,
    key: Key,
    load: F,
    after: Map<Key, Flight<V, E>>,
    answer: Result<V, E>,
) -> bool {
    match flight_of(reads, key) {
        Flight::Done(result) => after == reads && hands_out(result, answer),
        _ => exists|loaded: Result<V, E>| {
            &&& #[trigger] call_ensures(load, (), loaded)
            &&& after == reads.insert(key, Flight::Done(loaded))
            &&& hands_out(loaded, answer)
        },
    }
}

/// Copies the reads that succeeded.
fn successful_reads<V: Answer, E>(reads: &Table<Flight<V, E>>) -> (list: Vec<(Key, V)>)
    requires
        reads.wf(),
    ensures
        lists_successful(reads@, list@),
{
    let mut list: Vec<(Key, V)> = Vec::new();
    let ghost entries = reads.entries();
    let ghost mut origin: Seq<int> = Seq::empty();
    proof {
        reads.lemma_entries();
    }
    let mut i: usize = 0;
    while i < reads.len()
        invariant
            i <= entries.len(),
            entries == reads.entries(),
            origin.len() == list@.len(),
            forall|k: int|
                0 <= k < list@.len() ==> {
                    &&& 0 <= #[trigger] origin[k] < i
                    &&& list@[k].0 == entries[origin[k]].0
                    &&& entries[origin[k]].1 == Flight::<V, E>::Done(Ok(list@[k].1))
                },
            forall|j: int, k: int|
                0 <= j < k < list@.len() ==> #[trigger] origin[j] < #[trigger] origin[k],
            forall|e: int|
                0 <= e < i && (#[trigger] entries[e]).1 is Done && entries[e].1->Done_0 is Ok
                    ==> origin.contains(e),
        decreases entries.len() - i,
    {
        let entry = reads.entry(i);
        let ghost before = origin;
        if let Flight::Done(Ok(value)) = &entry.1 {
            list.push((entry.0, value.again()));
            proof {
                origin = origin.push(i as int);
                assert(origin[before.len() as int] == i);
            }
        }
        proof {
            assert forall|e: int|
                0 <= e < i + 1 && (#[trigger] entries[e]).1 is Done
                    && entries[e].1->Done_0 is Ok implies origin.contains(e) by {
                if e < i {
                    assert(before.contains(e));
                    let k = choose|k: int| 0 <= k < before.len() && before[k] == e;
                    assert(origin[k] == e);
                } else {
                    assert(origin[before.len() as int] == e);
                }
            }
        }
        i = i + 1;
    }
    assert(lists_successful(reads@, list@)) by {
        assert forall|k: int| 0 <= k < list@.len() implies reads@.contains_pair(
            (#[trigger] list@[k]).0,
            Flight::Done(Ok(list@[k].1)),
        ) by {
            assert(0 <= origin[k] < entries.len());
            assert(reads@.contains_key(entries[origin[k]].0));
        }
        assert forall|key: Key|
            reads@.contains_key(key) && (#[trigger] reads@[key]) is Done
                && reads@[key]->Done_0 is Ok implies exists|k: int|
            0 <= k < list@.len() && (#[trigger] list@[k]).0 == key by {
            let e = choose|e: int| 0 <= e < entries.len() && (#[trigger] entries[e]).0 == key;
            assert(origin.contains(e));
            let k = choose|k: int| 0 <= k < origin.len() && origin[k] == e;
            assert(list@[k].0 == key);
        }
        assert forall|j: int, k: int| 0 <= j < k < list@.len() implies (#[trigger] list@[j]).0 != (
        #[trigger] list@[k]).0 by {
            assert(origin[j] < origin[k]);
            assert(reads@.contains_key(entries[origin[j]].0));
            assert(entries[origin[j]].0 != entries[origin[k]].0);
        }
    }
    list
}

/// The mathematical content of a [`ReadCache`].
#[verifier::ext_equal]
#[verifier::reject_recursive_types(E)]
pub struct ReadView<E> {
    /// The account reads.
    pub accounts: Map<Key, Flight<Option<AccountInfo>, E>>,
    /// The code reads.
    pub contracts: Map<Key, Flight<Bytecode, E>>,
    /// The storage reads.
    pub storage: Map<Key, Flight<U256, E>>,
    /// The block-hash reads.
    pub block_hashes: Map<Key, Flight<B256, E>>,
}

/// Shared, key-level single-flight cache for parent-state database reads.
///
/// Both successful reads and errors are cached. This gives every worker a coherent result for a
/// key during one execution attempt and prevents a failing storage backend from being hammered by
/// all workers. The exported lists hold only successful reads; integrations can retain them across
/// execution attempts without persisting transient errors.
#[verifier::reject_recursive_types(E)]
pub struct ReadCache<E> {
    accounts: Table<Flight<Option<AccountInfo>, E>>,
    contracts: Table<Flight<Bytecode, E>>,
    storage: Table<Flight<U256, E>>,
    block_hashes: Table<Flight<B256, E>>,
}

impl<E> View for ReadCache<E> {
    type V = ReadView<E>;

    closed spec fn view(&self) -> ReadView<E> {
        ReadView {
            accounts: self.accounts@,
            contracts: self.contracts@,
            storage: self.storage@,
            block_hashes: self.block_hashes@,
        }
    }
}

impl<E> ReadCache<E> {
    /// Every read is kept under the key of its kind.
    pub closed spec fn wf(&self) -> bool {
        &&& self.accounts.wf()
        &&& self.contracts.wf()
        &&& self.storage.wf()
        &&& self.block_hashes.wf()
        &&& forall|key: Key| #[trigger]
            self.accounts@.contains_key(key) ==> key == account_key_spec(key.1)
        &&& forall|key: Key| #[trigger]
            self.contracts@.contains_key(key) ==> key == code_key_spec(key.2)
        &&& forall|key: Key| #[trigger]
            self.storage@.contains_key(key) ==> key == slot_key_spec(key.1, key.2)
        &&& forall|key: Key| #[trigger]
            self.block_hashes@.contains_key(key) ==> key == number_key_spec(key.0)
    }

    /// Creates an empty read cache.
    pub fn new() -> (cache: Self)
        ensures
            cache.wf(),
            cache@ == (ReadView::<E> {
                accounts: Map::empty(),
                contracts: Map::empty(),
                storage: Map::empty(),
                block_hashes: Map::empty(),
            }),
    {
        ReadCache {
            accounts: Table::new(),
            contracts: Table::new(),
            storage: Table::new(),
            block_hashes: Table::new(),
        }
    }

    /// Seeds an account read if the address is not already cached.
    pub fn insert_account(&mut self, address: Address, account: Option<AccountInfo>) -> (inserted:
        bool)
        requires
            old(self).wf(),
        ensures
            final(self).wf(),
            final(self)@ == (ReadView {
                accounts: seeded(old(self)@.accounts, account_key_spec(address), account),
                ..old(self)@
            }),
            inserted == !old(self)@.accounts.contains_key(account_key_spec(address)),
    {
        insert_cached(&mut self.accounts, account_key(address), account)
    }

    /// Seeds a bytecode read if the code hash is not already cached.
    pub fn insert_code(&mut self, code_hash: B256, code: Bytecode) -> (inserted: bool)
        requires
            old(self).wf(),
        ensures
            final(self).wf(),
            final(self)@ == (ReadView {
                contracts: seeded(old(self)@.contracts, code_key_spec(code_hash), code),
                ..old(self)@
            }),
            inserted == !old(self)@.contracts.contains_key(code_key_spec(code_hash)),
    {
        insert_cached(&mut self.contracts, code_key(code_hash), code)
    }

    /// Seeds a storage read if the address and slot are not already cached.
    pub fn insert_storage(&mut self, address: Address, index: U256, value: U256) -> (inserted: bool)
        requires
            old(self).wf(),
        ensures
            final(self).wf(),
            final(self)@ == (ReadView {
                storage: seeded(old(self)@.storage, slot_key_spec(address, index), value),
                ..old(self)@
            }),
            inserted == !old(self)@.storage.contains_key(slot_key_spec(address, index)),
    {
        insert_cached(&mut self.storage, slot_key(address, index), value)
    }

    /// Seeds a block-hash read if the block number is not already cached.
    pub fn insert_block_hash(&mut self, number: u64, block_hash: B256) -> (inserted: bool)
        requires
            old(self).wf(),
        ensures
            final(self).wf(),
            final(self)@ == (ReadView {
                block_hashes: seeded(
                    old(self)@.block_hashes,
                    number_key_spec(number),
                    block_hash,
                ),
                ..old(self)@
            }),
            inserted == !old(self)@.block_hashes.contains_key(number_key_spec(number)),
    {
        insert_cached(&mut self.block_hashes, number_key(number), block_hash)
    }

    /// Lists the successfully cached account reads.
    pub fn account_reads(&self) -> (list: Vec<(Address, Option<AccountInfo>)>)
        requires
            self.wf(),
        ensures
            lists_successful(
                self@.accounts,
                list@.map_values(
                    |read: (Address, Option<AccountInfo>)| (account_key_spec(read.0), read.1),
                ),
            ),
    {
        let reads = successful_reads(&self.accounts);
        let ghost keyed = reads@;
        let mut list: Vec<(Address, Option<AccountInfo>)> = Vec::new();
        for read in iter: reads
            invariant
                iter.seq() == keyed,
                list@.len() == iter.index(),
                forall|i: int|
                    0 <= i < list@.len() ==> #[trigger] list@[i] == (keyed[i].0.1, keyed[i].1),
        {
            list.push((read.0.1, read.1));
        }
        proof {
            assert forall|i: int| 0 <= i < keyed.len() implies (#[trigger] keyed[i]).0
                == account_key_spec(keyed[i].0.1) by {
                assert(self.accounts@.contains_key(keyed[i].0));
            }
            assert(list@.map_values(
                |read: (Address, Option<AccountInfo>)| (account_key_spec(read.0), read.1),
            ) =~= keyed);
        }
        list
    }

    /// Lists the successfully cached bytecode reads.
    pub fn code_reads(&self) -> (list: Vec<(B256, Bytecode)>)
        requires
            self.wf(),
        ensures
            lists_successful(
                self@.contracts,
                list@.map_values(|read: (B256, Bytecode)| (code_key_spec(read.0), read.1)),
            ),
    {
        let reads = successful_reads(&self.contracts);
        let ghost keyed = reads@;
        let mut list: Vec<(B256, Bytecode)> = Vec::new();
        for read in iter: reads
            invariant
                iter.seq() == keyed,
                list@.len() == iter.index(),
                forall|i: int|
                    0 <= i < list@.len() ==> #[trigger] list@[i] == (keyed[i].0.2, keyed[i].1),
        {
            list.push((read.0.2, read.1));
        }
        proof {
            assert forall|i: int| 0 <= i < keyed.len() implies (#[trigger] keyed[i]).0
                == code_key_spec(keyed[i].0.2) by {
                assert(self.contracts@.contains_key(keyed[i].0));
            }
            assert(list@.map_values(|read: (B256, Bytecode)| (code_key_spec(read.0), read.1))
                =~= keyed);
        }
        list
    }

    /// Lists the successfully cached storage reads.
    pub fn storage_reads(&self) -> (list: Vec<((Address, U256), U256)>)
        requires
            self.wf(),
        ensures
            lists_successful(
                self@.storage,
                list@.map_values(
                    |read: ((Address, U256), U256)| (slot_key_spec(read.0.0, read.0.1), read.1),
                ),
            ),
    {
        let reads = successful_reads(&self.storage);
        let ghost keyed = reads@;
        let mut list: Vec<((Address, U256), U256)> = Vec::new();
        for read in iter: reads
            invariant
                iter.seq() == keyed,
                list@.len() == iter.index(),
                forall|i: int|
                    0 <= i < list@.len() ==> #[trigger] list@[i] == (
                        (keyed[i].0.1, keyed[i].0.2),
                        keyed[i].1,
                    ),
        {
            list.push(((read.0.1, read.0.2), read.1));
        }
        proof {
            assert forall|i: int| 0 <= i < keyed.len() implies (#[trigger] keyed[i]).0
                == slot_key_spec(keyed[i].0.1, keyed[i].0.2) by {
                assert(self.storage@.contains_key(keyed[i].0));
            }
            assert(list@.map_values(
                |read: ((Address, U256), U256)| (slot_key_spec(read.0.0, read.0.1), read.1),
            ) =~= keyed);
        }
        list
    }

    /// Lists the successfully cached block-hash reads.
    pub fn block_hash_reads(&self) -> (list: Vec<(u64, B256)>)
        requires
            self.wf(),
        ensures
            lists_successful(
                self@.block_hashes,
                list@.map_values(|read: (u64, B256)| (number_key_spec(read.0), read.1)),
            ),
    {
        let reads = successful_reads(&self.block_hashes);
        let ghost keyed = reads@;
        let mut list: Vec<(u64, B256)> = Vec::new();
        for read in iter: reads
            invariant
                iter.seq() == keyed,
                list@.len() == iter.index(),
                forall|i: int|
                    0 <= i < list@.len() ==> #[trigger] list@[i] == (keyed[i].0.0, keyed[i].1),
        {
            list.push((read.0.0, read.1));
        }
        proof {
            assert forall|i: int| 0 <= i < keyed.len() implies (#[trigger] keyed[i]).0
                == number_key_spec(keyed[i].0.0) by {
                assert(self.block_hashes@.contains_key(keyed[i].0));
            }
            assert(list@.map_values(|read: (u64, B256)| (number_key_spec(read.0), read.1))
                =~= keyed);
        }
        list
    }
}

impl<E> Default for ReadCache<E> {
    fn default() -> (cache: Self)
        ensures
            cache.wf(),
            cache@ == (ReadView::<E> {
                accounts: Map::empty(),
                contracts: Map::empty(),
                storage: Map::empty(),
                block_hashes: Map::empty(),
            }),
    {
        ReadCache::new()
    }
}

impl<E: Clone> ReadCache<E> {
    /// The result of an account read: the cached one, or else the one that `load` gives.
    pub fn load_account<F: FnOnce() -> Result<Option<AccountInfo>, E>>(
        &mut self,
        address: Address,
        load: F,
    ) -> (answer: Result<Option<AccountInfo>, E>)
        requires
            old(self).wf(),
            flight_of(old(self)@.accounts, account_key_spec(address)) !is Loading,
            flight_of(old(self)@.accounts, account_key_spec(address)) is Idle ==> call_requires(
                load,
                (),
            ),
        ensures
            final(self).wf(),
            final(self)@ == (ReadView { accounts: final(self)@.accounts, ..old(self)@ }),
            loads(
                old(self)@.accounts,
                account_key_spec(address),
                load,
                final(self)@.accounts,
                answer,
            ),
    {
        cached(&mut self.accounts, account_key(address), load)
    }

    /// The result of a code read: the cached one, or else the one that `load` gives.
    pub fn load_code<F: FnOnce() -> Result<Bytecode, E>>(
        &mut self,
        code_hash: B256,
        load: F,
    ) -> (answer: Result<Bytecode, E>)
        requires
            old(self).wf(),
            flight_of(old(self)@.contracts, code_key_spec(code_hash)) !is Loading,
            flight_of(old(self)@.contracts, code_key_spec(code_hash)) is Idle ==> call_requires(
                load,
                (),
            ),
        ensures
            final(self).wf(),
            final(self)@ == (ReadView { contracts: final(self)@.contracts, ..old(self)@ }),
            loads(
                old(self)@.contracts,
                code_key_spec(code_hash),
                load,
                final(self)@.contracts,
                answer,
            ),
    {
        cached(&mut self.contracts, code_key(code_hash), load)
    }

    /// The result of a storage read: the cached one, or else the one that `load` gives.
    pub fn load_storage<F: FnOnce() -> Result<U256, E>>(
        &mut self,
        address: Address,
        index: U256,
        load: F,
    ) -> (answer: Result<U256, E>)
        requires
            old(self).wf(),
            flight_of(old(self)@.storage, slot_key_spec(address, index)) !is Loading,
            flight_of(old(self)@.storage, slot_key_spec(address, index)) is Idle ==> call_requires(
                load,
                (),
            ),
        ensures
            final(self).wf(),
            final(self)@ == (ReadView { storage: final(self)@.storage, ..old(self)@ }),
            loads(
                old(self)@.storage,
                slot_key_spec(address, index),
                load,
                final(self)@.storage,
                answer,
            ),
    {
        cached(&mut self.storage, slot_key(address, index), load)
    }

    /// The result of a block-hash read: the cached one, or else the one that `load` gives.
    pub fn load_block_hash<F: FnOnce() -> Result<B256, E>>(
        &mut self,
        number: u64,
        load: F,
    ) -> (answer: Result<B256, E>)
        requires
            old(self).wf(),
            flight_of(old(self)@.block_hashes, number_key_spec(number)) !is Loading,
            flight_of(old(self)@.block_hashes, number_key_spec(number)) is Idle ==> call_requires(
                load,
                (),
            ),
        ensures
            final(self).wf(),
            final(self)@ == (ReadView { block_hashes: final(self)@.block_hashes, ..old(self)@ }),
            loads(
                old(self)@.block_hashes,
                number_key_spec(number),
                load,
                final(self)@.block_hashes,
                answer,
            ),
    {
        cached(&mut self.block_hashes, number_key(number), load)
    }
}

/// Reads that several workers share: a worker begins a read, loads it if it is told to, and then
/// finishes it; the others wait.
impl<E: Clone> ReadCache<E> {
    /// Asks for an account read.
    pub fn begin_account(&mut self, address: Address) -> (step: LoadStep<Option<AccountInfo>, E>)
        requires
            old(self).wf(),
        ensures
            final(self).wf(),
            final(self)@ == (ReadView {
                accounts: asked(old(self)@.accounts, account_key_spec(address)),
                ..old(self)@
            }),
            tells(flight_of(old(self)@.accounts, account_key_spec(address)), step),
    {
        begin_load(&mut self.accounts, account_key(address))
    }

    /// Hands over the result of an account read, once it was loaded.
    pub fn finish_account(&mut self, address: Address, result: Result<Option<AccountInfo>, E>) -> (answer: Result<Option<AccountInfo>, E>)
        requires
            old(self).wf(),
            flight_of(old(self)@.accounts, account_key_spec(address)) is Loading,
        ensures
            final(self).wf(),
            final(self)@ == (ReadView {
                accounts: old(self)@.accounts.insert(account_key_spec(address), Flight::Done(result)),
                ..old(self)@
            }),
            hands_out(result, answer),
    {
        finish_load(&mut self.accounts, account_key(address), result)
    }

    /// Gives up loading an account read.
    pub fn abandon_account(&mut self, address: Address)
        requires
            old(self).wf(),
        ensures
            final(self).wf(),
            final(self)@ == (ReadView {
                accounts: abandoned(old(self)@.accounts, account_key_spec(address)),
                ..old(self)@
            }),
    {
        abandon_load(&mut self.accounts, account_key(address));
    }

    /// Asks for a code read.
    pub fn begin_code(&mut self, code_hash: B256) -> (step: LoadStep<Bytecode, E>)
        requires
            old(self).wf(),
        ensures
            final(self).wf(),
            final(self)@ == (ReadView {
                contracts: asked(old(self)@.contracts, code_key_spec(code_hash)),
                ..old(self)@
            }),
            tells(flight_of(old(self)@.contracts, code_key_spec(code_hash)), step),
    {
        begin_load(&mut self.contracts, code_key(code_hash))
    }

    /// Hands over the result of a code read, once it was loaded.
    pub fn finish_code(&mut self, code_hash: B256, result: Result<Bytecode, E>) -> (answer: Result<Bytecode, E>)
        requires
            old(self).wf(),
            flight_of(old(self)@.contracts, code_key_spec(code_hash)) is Loading,
        ensures
            final(self).wf(),
            final(self)@ == (ReadView {
                contracts: old(self)@.contracts.insert(code_key_spec(code_hash), Flight::Done(result)),
                ..old(self)@
            }),
            hands_out(result, answer),
    {
        finish_load(&mut self.contracts, code_key(code_hash), result)
    }

    /// Gives up loading a code read.
    pub fn abandon_code(&mut self, code_hash: B256)
        requires
            old(self).wf(),
        ensures
            final(self).wf(),
            final(self)@ == (ReadView {
                contracts: abandoned(old(self)@.contracts, code_key_spec(code_hash)),
                ..old(self)@
            }),
    {
        abandon_load(&mut self.contracts, code_key(code_hash));
    }

    /// Asks for a storage read.
    pub fn begin_storage(&mut self, address: Address, index: U256) -> (step: LoadStep<U256, E>)
        requires
            old(self).wf(),
        ensures
            final(self).wf(),
            final(self)@ == (ReadView {
                storage: asked(old(self)@.storage, slot_key_spec(address, index)),
                ..old(self)@
            }),
            tells(flight_of(old(self)@.storage, slot_key_spec(address, index)), step),
    {
        begin_load(&mut self.storage, slot_key(address, index))
    }

    /// Hands over the result of a storage read, once it was loaded.
    pub fn finish_storage(&mut self, address: Address, index: U256, result: Result<U256, E>) -> (answer: Result<U256, E>)
        requires
            old(self).wf(),
            flight_of(old(self)@.storage, slot_key_spec(address, index)) is Loading,
        ensures
            final(self).wf(),
            final(self)@ == (ReadView {
                storage: old(self)@.storage.insert(slot_key_spec(address, index), Flight::Done(result)),
                ..old(self)@
            }),
            hands_out(result, answer),
    {
        finish_load(&mut self.storage, slot_key(address, index), result)
    }

    /// Gives up loading a storage read.
    pub fn abandon_storage(&mut self, address: Address, index: U256)
        requires
            old(self).wf(),
        ensures
            final(self).wf(),
            final(self)@ == (ReadView {
                storage: abandoned(old(self)@.storage, slot_key_spec(address, index)),
                ..old(self)@
            }),
    {
        abandon_load(&mut self.storage, slot_key(address, index));
    }

    /// Asks for a block-hash read.
    pub fn begin_block_hash(&mut self, number: u64) -> (step: LoadStep<B256, E>)
        requires
            old(self).wf(),
        ensures
            final(self).wf(),
            final(self)@ == (ReadView {
                block_hashes: asked(old(self)@.block_hashes, number_key_spec(number)),
                ..old(self)@
            }),
            tells(flight_of(old(self)@.block_hashes, number_key_spec(number)), step),
    {
        begin_load(&mut self.block_hashes, number_key(number))
    }

    /// Hands over the result of a block-hash read, once it was loaded.
    pub fn finish_block_hash(&mut self, number: u64, result: Result<B256, E>) -> (answer: Result<B256, E>)
        requires
            old(self).wf(),
            flight_of(old(self)@.block_hashes, number_key_spec(number)) is Loading,
        ensures
            final(self).wf(),
            final(self)@ == (ReadView {
                block_hashes: old(self)@.block_hashes.insert(number_key_spec(number), Flight::Done(result)),
                ..old(self)@
            }),
            hands_out(result, answer),
    {
        finish_load(&mut self.block_hashes, number_key(number), result)
    }

    /// Gives up loading a block-hash read.
    pub fn abandon_block_hash(&mut self, number: u64)
        requires
            old(self).wf(),
        ensures
            final(self).wf(),
            final(self)@ == (ReadView {
                block_hashes: abandoned(old(self)@.block_hashes, number_key_spec(number)),
                ..old(self)@
            }),
    {
        abandon_load(&mut self.block_hashes, number_key(number));
    }
}

/// What workers do about one read.
pub enum FlightAction<V, E> {
    /// The read is seeded.
    Seed(V),
    /// A worker asks for the read.
    Begin,
    /// The worker that loads the read hands over its result.
    Finish(Result<V, E>),
    /// The worker that loads the read gives up.
    Abandon,
}

/// The state of one read after an action; `None` before anybody asked for it.
pub open spec fn flight_after<V, E>(
    state: Option<Flight<V, E>>,
    action: FlightAction<V, E>,
) -> Option<Flight<V, E>> {
    match action {
        FlightAction::Seed(value) => match state {
            None => Some(Flight::Done(Ok(value))),
            Some(_) => state,
        },
        FlightAction::Begin => match state {
            None | Some(Flight::Idle) => Some(Flight::Loading),
            _ => state,
        },
        FlightAction::Finish(result) => Some(Flight::Done(result)),
        FlightAction::Abandon => match state {
            Some(Flight::Loading) => Some(Flight::Idle),
            _ => state,
        },
    }
}

/// The action tells a worker to load the read.
pub open spec fn starts_load<V, E>(
    state: Option<Flight<V, E>>,
    action: FlightAction<V, E>,
) -> bool {
    action is Begin && (state is None || state == Some(Flight::<V, E>::Idle))
}

/// The action makes a worker give up a load.
pub open spec fn gives_up<V, E>(state: Option<Flight<V, E>>, action: FlightAction<V, E>) -> bool {
    action is Abandon && state == Some(Flight::<V, E>::Loading)
}

/// Only the worker that loads a read hands a result over.
pub open spec fn flight_allows<V, E>(
    state: Option<Flight<V, E>>,
    action: FlightAction<V, E>,
) -> bool {
    action is Finish ==> state == Some(Flight::<V, E>::Loading)
}

/// The state of one read after a list of actions.
pub open spec fn flight_run<V, E>(
    state: Option<Flight<V, E>>,
    actions: Seq<FlightAction<V, E>>,
) -> Option<Flight<V, E>>
    decreases actions.len(),
{
    if actions.len() == 0 {
        state
    } else {
        flight_after(flight_run(state, actions.drop_last()), actions.last())
    }
}

/// Every action of the list is allowed where it happens.
pub open spec fn flight_legal<V, E>(
    state: Option<Flight<V, E>>,
    actions: Seq<FlightAction<V, E>>,
) -> bool
    decreases actions.len(),
{
    actions.len() > 0 ==> {
        &&& flight_legal(state, actions.drop_last())
        &&& flight_allows(flight_run(state, actions.drop_last()), actions.last())
    }
}

/// How often the actions tell a worker to load the read.
pub open spec fn load_count<V, E>(
    state: Option<Flight<V, E>>,
    actions: Seq<FlightAction<V, E>>,
) -> nat
    decreases actions.len(),
{
    if actions.len() == 0 {
        0
    } else {
        load_count(state, actions.drop_last()) + if starts_load(
            flight_run(state, actions.drop_last()),
            actions.last(),
        ) {
            1nat
        } else {
            0nat
        }
    }
}

/// How often a worker gives up a load.
pub open spec fn abandon_count<V, E>(
    state: Option<Flight<V, E>>,
    actions: Seq<FlightAction<V, E>>,
) -> nat
    decreases actions.len(),
{
    if actions.len() == 0 {
        0
    } else {
        abandon_count(state, actions.drop_last()) + if gives_up(
            flight_run(state, actions.drop_last()),
            actions.last(),
        ) {
            1nat
        } else {
            0nat
        }
    }
}

/// However many workers ask for a read, in whatever order, it is loaded at most once, and once
/// more for every load that a worker gave up.
pub proof fn law_reads_are_single_flight<V, E>(actions: Seq<FlightAction<V, E>>)
    requires
        flight_legal(None, actions),
    ensures
        load_count(None, actions) <= 1 + abandon_count(None, actions),
{
    lemma_single_flight(actions);
}

/// While a read is idle every load of it was given up, and otherwise all but one.
proof fn lemma_single_flight<V, E>(actions: Seq<FlightAction<V, E>>)
    requires
        flight_legal(None, actions),
    ensures
        ({
            let state = flight_run(None, actions);
            let waiting = state is None || state == Some(Flight::<V, E>::Idle);
            let (started, given_up) = (load_count(None, actions), abandon_count(None, actions));
            started <= given_up + if waiting {
                0nat
            } else {
                1nat
            }
        }),
    decreases actions.len(),
{
    if actions.len() > 0 {
        lemma_single_flight(actions.drop_last());
    }
}

/// Once a read has a result, the result never changes, and nobody is told to load it any more.
pub proof fn law_results_are_final<V, E>(result: Result<V, E>, actions: Seq<FlightAction<V, E>>)
    requires
        flight_legal(Some(Flight::Done(result)), actions),
    ensures
        flight_run(Some(Flight::Done(result)), actions) == Some(Flight::Done(result)),
        load_count(Some(Flight::Done(result)), actions) == 0,
    decreases actions.len(),
{
    if actions.len() > 0 {
        law_results_are_final(result, actions.drop_last());
    }
}

/// The steps of the shared cache are these actions: seeding, asking, handing over and giving up a
/// read change its state as the action does, and leave every other read alone.
pub proof fn law_cache_steps_are_flight_actions<V, E>(
    reads: Map<Key, Flight<V, E>>,
    key: Key,
    value: V,
    result: Result<V, E>,
    other: Key,
)
    requires
        other != key,
    ensures
        seeded(reads, key, value).get(key) == flight_after(
            reads.get(key),
            FlightAction::Seed(value),
        ),
        asked(reads, key).get(key) == flight_after(reads.get(key), FlightAction::Begin),
        reads.insert(key, Flight::Done(result)).get(key) == flight_after(
            reads.get(key),
            FlightAction::Finish(result),
        ),
        abandoned(reads, key).get(key) == flight_after(reads.get(key), FlightAction::Abandon),
        seeded(reads, key, value).get(other) == reads.get(other),
        asked(reads, key).get(other) == reads.get(other),
        reads.insert(key, Flight::Done(result)).get(other) == reads.get(other),
        abandoned(reads, key).get(other) == reads.get(other),
{
}

/// What some worker does about some read.
pub struct CacheEvent<V, E> {
    /// The read.
    pub key: Key,
    /// What the worker does.
    pub action: FlightAction<V, E>,
}

/// The reads after an event.
pub open spec fn reads_after<V, E>(
    reads: Map<Key, Flight<V, E>>,
    event: CacheEvent<V, E>,
) -> Map<Key, Flight<V, E>> {
    match event.action {
        FlightAction::Seed(value) => seeded(reads, event.key, value),
        FlightAction::Begin => asked(reads, event.key),
        FlightAction::Finish(result) => reads.insert(event.key, Flight::Done(result)),
        FlightAction::Abandon => abandoned(reads, event.key),
    }
}

/// The reads of a cache that was empty, after the first `count` of `events`.
pub open spec fn reads_at<V, E>(events: Seq<CacheEvent<V, E>>, count: int) -> Map<
    Key,
    Flight<V, E>,
>
    decreases count,
{
    if count <= 0 {
        Map::empty()
    } else {
        reads_after(reads_at(events, count - 1), events[count - 1])
    }
}

/// Only the worker that loads a read hands a result over.
pub open spec fn events_legal<V, E>(events: Seq<CacheEvent<V, E>>) -> bool {
    forall|i: int|
        0 <= i < events.len() && (#[trigger] events[i]).action is Finish ==> flight_of(
            reads_at(events, i),
            events[i].key,
        ) is Loading
}

/// The event at `at` tells its worker to load the read.
pub open spec fn loads_at<V, E>(events: Seq<CacheEvent<V, E>>, at: int) -> bool {
    events[at].action is Begin && flight_of(reads_at(events, at), events[at].key) is Idle
}

/// The result that the event at `at` hands to its worker, if any.
pub open spec fn result_at<V, E>(events: Seq<CacheEvent<V, E>>, at: int) -> Option<Result<V, E>> {
    match events[at].action {
        FlightAction::Begin => match flight_of(reads_at(events, at), events[at].key) {
            Flight::Done(result) => Some(result),
            _ => None,
        },
        FlightAction::Finish(result) => Some(result),
        _ => None,
    }
}

/// A result stays, whatever happens after it.
proof fn lemma_result_stays<V, E>(
    events: Seq<CacheEvent<V, E>>,
    key: Key,
    from: int,
    to: int,
    result: Result<V, E>,
)
    requires
        events_legal(events),
        0 <= from <= to <= events.len(),
        flight_of(reads_at(events, from), key) == Flight::<V, E>::Done(result),
    ensures
        flight_of(reads_at(events, to), key) == Flight::<V, E>::Done(result),
    decreases to - from,
{
    if from < to {
        lemma_result_stays(events, key, from, to - 1, result);
        assert(events[to - 1].action is Finish ==> flight_of(
            reads_at(events, to - 1),
            events[to - 1].key,
        ) is Loading);
    }
}

/// A read that is loaded or known does not become idle unless its worker gives up.
proof fn lemma_load_stays<V, E>(events: Seq<CacheEvent<V, E>>, key: Key, from: int, to: int)
    requires
        0 <= from <= to <= events.len(),
        !(flight_of(reads_at(events, from), key) is Idle),
        forall|k: int|
            from <= k < to && (#[trigger] events[k]).key == key ==> !(events[k].action is Abandon),
    ensures
        !(flight_of(reads_at(events, to), key) is Idle),
    decreases to - from,
{
    if from < to {
        lemma_load_stays(events, key, from, to - 1);
        assert(events[to - 1].key == key ==> !(events[to - 1].action is Abandon));
    }
}

/// One load serves every call. However the calls of many workers interleave over any number of
/// keys, all results handed out for a key are the same; unless a worker gives up in between, at
/// most one call for a key loads; a key that was seeded first is never loaded and its seed is what
/// every call gets; and no event touches another key.
pub proof fn law_one_load_serves_every_call<V, E>(
    events: Seq<CacheEvent<V, E>>,
    first: int,
    second: int,
    other: Key,
)
    requires
        events_legal(events),
        0 <= first < second < events.len(),
        events[first].key == events[second].key,
    ensures
        result_at(events, first) is Some && result_at(events, second) is Some ==> result_at(
            events,
            first,
        ) == result_at(events, second),
        loads_at(events, first) && loads_at(events, second) ==> exists|k: int|
            first < k < second && (#[trigger] events[k]).key == events[first].key
                && events[k].action is Abandon,
        events[first].action is Seed && !reads_at(events, first).contains_key(events[first].key)
            ==> {
            &&& !loads_at(events, second)
            &&& events[second].action is Begin ==> result_at(events, second) == Some(
                Ok::<V, E>(events[first].action->Seed_0),
            )
        },
        other != events[first].key ==> reads_at(events, first + 1).get(other) == reads_at(
            events,
            first,
        ).get(other),
{
    let key = events[first].key;
    if let Some(result) = result_at(events, first) {
        assert(flight_of(reads_at(events, first + 1), key) == Flight::<V, E>::Done(result));
        lemma_result_stays(events, key, first + 1, second, result);
        assert(events[second].action is Finish ==> flight_of(reads_at(events, second), key)
            is Loading);
    }
    if loads_at(events, first) && loads_at(events, second) {
        if forall|k: int|
            first + 1 <= k < second && (#[trigger] events[k]).key == key ==> !(
            events[k].action is Abandon) {
            lemma_load_stays(events, key, first + 1, second);
        }
    }
    if events[first].action is Seed && !reads_at(events, first).contains_key(key) {
        lemma_result_stays(events, key, first + 1, second, Ok(events[first].action->Seed_0));
    }
}

/// Creates independent database handles for parallel execution workers.
///
/// Factory and database errors use the same type so a creation failure can be returned by a read.
pub trait DatabaseFactory {
    /// Database created for one worker thread.
    type Database;

    /// Database creation and read error.
    type Error: Clone;

    /// Creates a new database handle.
    fn create(&self) -> (database: Result<Self::Database, Self::Error>);
}

/// The mathematical content of a [`ConcurrentDatabase`].
#[verifier::ext_equal]
#[verifier::reject_recursive_types(F)]
pub struct DatabaseView<F: DatabaseFactory> {
    /// Creates the handles.
    pub factory: F,
    /// The handles of the threads that read so far.
    pub handles: Map<Key, F::Database>,
    /// The shared reads.
    pub cache: ReadView<F::Error>,
}

/// How a thread's read turns the handles into `after`: the thread's handle answers, and is created
/// first if the thread has none. A handle that cannot be created is an error.
pub open spec fn reads_with<F: DatabaseFactory, T, R: FnOnce(&F::Database) -> Result<T, F::Error>>(
    factory: F,
    handles: Map<Key, F::Database>,
    thread: u64,
    read: R,
    after: Map<Key, F::Database>,
    answer: Result<T, F::Error>,
) -> bool {
    if handles.contains_key(number_key_spec(thread)) {
        &&& after == handles
        &&& call_ensures(read, (&handles[number_key_spec(thread)],), answer)
    } else {
        exists|created: Result<F::Database, F::Error>| {
            &&& #[trigger] call_ensures(F::create, (&factory,), created)
            &&& match created {
                Ok(database) => {
                    &&& after == handles.insert(number_key_spec(thread), database)
                    &&& call_ensures(read, (&database,), answer)
                },
                Err(error) => {
                    &&& after == handles
                    &&& answer == Err::<T, F::Error>(error)
                },
            }
        }
    }
}

impl<F: DatabaseFactory> DatabaseView<F> {
    /// How a thread's read through the cache turns the handles and the reads of one kind into
    /// those after it: a known result is handed out and opens no database.
    pub open spec fn answers<T, R: FnOnce(&F::Database) -> Result<T, F::Error>>(
        self,
        thread: u64,
        reads: Map<Key, Flight<T, F::Error>>,
        key: Key,
        read: R,
        after: Map<Key, F::Database>,
        reads_after: Map<Key, Flight<T, F::Error>>,
        answer: Result<T, F::Error>,
    ) -> bool {
        match flight_of(reads, key) {
            Flight::Done(result) => {
                &&& after == self.handles
                &&& reads_after == reads
                &&& hands_out(result, answer)
            },
            _ => exists|loaded: Result<T, F::Error>| {
                &&& #[trigger] reads_with(
                    self.factory,
                    self.handles,
                    thread,
                    read,
                    after,
                    loaded,
                )
                &&& reads_after == reads.insert(key, Flight::Done(loaded))
                &&& hands_out(loaded, answer)
            },
        }
    }
}

/// A concurrent database backed by one lazily-created database handle per calling thread.
///
/// Database handles are retained until [`Self::clear_thread_databases`] is called. Integrations
/// that execute multiple batches should clear handles after all workers for a batch have joined;
/// cached parent-state reads remain available to later batches.
#[verifier::reject_recursive_types(F)]
pub struct ConcurrentDatabase<F: DatabaseFactory> {
    factory: F,
    databases: Table<F::Database>,
    cache: ReadCache<F::Error>,
}

impl<F: DatabaseFactory> View for ConcurrentDatabase<F> {
    type V = DatabaseView<F>;

    closed spec fn view(&self) -> DatabaseView<F> {
        DatabaseView {
            factory: self.factory,
            handles: self.databases@,
            cache: self.cache@,
        }
    }
}

impl<F: DatabaseFactory> ConcurrentDatabase<F> {
    /// The representation invariant.
    pub closed spec fn wf(&self) -> bool {
        self.databases.wf() && self.cache.wf()
    }

    /// Creates a concurrent database with an empty read cache.
    pub fn new(factory: F) -> (database: Self)
        ensures
            database.wf(),
            database@ == (DatabaseView {
                factory,
                handles: Map::empty(),
                cache: ReadView {
                    accounts: Map::empty(),
                    contracts: Map::empty(),
                    storage: Map::empty(),
                    block_hashes: Map::empty(),
                },
            }),
    {
        Self::with_cache(factory, ReadCache::new())
    }

    /// Creates a concurrent database backed by `cache`.
    ///
    /// This is useful for seeding reads retained by a previous execution attempt.
    pub fn with_cache(factory: F, cache: ReadCache<F::Error>) -> (database: Self)
        requires
            cache.wf(),
        ensures
            database.wf(),
            database@ == (DatabaseView { factory, handles: Map::empty(), cache: cache@ }),
    {
        ConcurrentDatabase { factory, databases: Table::new(), cache }
    }

    /// Returns the shared parent-state read cache.
    pub fn cache(&self) -> (cache: &ReadCache<F::Error>)
        requires
            self.wf(),
        ensures
            cache.wf(),
            cache@ == self@.cache,
    {
        &self.cache
    }

    /// Returns mutable access to the shared parent-state read cache.
    pub fn cache_mut(&mut self) -> (cache: &mut ReadCache<F::Error>)
        requires
            old(self).wf(),
        ensures
            cache.wf(),
            cache@ == old(self)@.cache,
            final(cache).wf() ==> final(self).wf(),
            final(self)@ == (DatabaseView { cache: final(cache)@, ..old(self)@ }),
    {
        &mut self.cache
    }

    /// Returns the number of retained per-thread database handles.
    pub fn thread_database_count(&self) -> (count: usize)
        requires
            self.wf(),
        ensures
            self@.handles.dom().finite(),
            count == self@.handles.dom().len(),
    {
        proof {
            self.databases.lemma_len();
        }
        self.databases.len()
    }

    /// Clears all retained per-thread database handles and returns how many entries were removed.
    ///
    /// Call this after the worker threads using the database have joined.
    pub fn clear_thread_databases(&mut self) -> (count: usize)
        requires
            old(self).wf(),
        ensures
            final(self).wf(),
            old(self)@.handles.dom().finite(),
            count == old(self)@.handles.dom().len(),
            final(self)@ == (DatabaseView { handles: Map::empty(), ..old(self)@ }),
    {
        let count: usize = self.thread_database_count();
        self.databases.clear();
        count
    }

    /// The handle of a thread, if it has one.
    pub fn thread_database(&self, thread: u64) -> (database: Option<&F::Database>)
        requires
            self.wf(),
        ensures
            match database {
                Some(database) => self@.handles.contains_pair(number_key_spec(thread), *database),
                None => !self@.handles.contains_key(number_key_spec(thread)),
            },
    {
        self.databases.get(&number_key(thread))
    }

    /// Keeps a handle for a thread, unless the thread got one meanwhile, and returns the handle
    /// that is kept.
    pub fn keep_database(&mut self, thread: u64, database: F::Database) -> (kept: &F::Database)
        requires
            old(self).wf(),
        ensures
            final(self).wf(),
            final(self)@.handles == (if old(self)@.handles.contains_key(number_key_spec(thread)) {
                old(self)@.handles
            } else {
                old(self)@.handles.insert(number_key_spec(thread), database)
            }),
            final(self)@ == (DatabaseView { handles: final(self)@.handles, ..old(self)@ }),
            *kept == final(self)@.handles[number_key_spec(thread)],
    {
        let key: Key = number_key(thread);
        if !self.databases.contains_key(&key) {
            self.databases.insert(key, database);
        }
        self.databases.get(&key).unwrap()
    }

    /// Reads with the handle of a thread, which is created first if the thread has none.
    pub fn with_database<T, R: FnOnce(&F::Database) -> Result<T, F::Error>>(
        &mut self,
        thread: u64,
        read: R,
    ) -> (answer: Result<T, F::Error>)
        requires
            old(self).wf(),
            forall|database: &F::Database| call_requires(read, (database,)),
        ensures
            final(self).wf(),
            final(self)@ == (DatabaseView { handles: final(self)@.handles, ..old(self)@ }),
            reads_with(
                old(self)@.factory,
                old(self)@.handles,
                thread,
                read,
                final(self)@.handles,
                answer,
            ),
    {
        let key: Key = number_key(thread);
        if let Some(database) = self.databases.get(&key) {
            return read(database);
        }
        match self.factory.create() {
            Ok(database) => read(self.keep_database(thread, database)),
            Err(error) => Err(error),
        }
    }

    /// Reads an account through the cache.
    pub fn basic_ref<R: FnOnce(&F::Database) -> Result<Option<AccountInfo>, F::Error>>(
        &mut self,
        thread: u64,
        address: Address,
        read: R,
    ) -> (answer: Result<Option<AccountInfo>, F::Error>)
        requires
            old(self).wf(),
            flight_of(old(self)@.cache.accounts, account_key_spec(address)) !is Loading,
            forall|database: &F::Database| call_requires(read, (database,)),
        ensures
            final(self).wf(),
            final(self)@ == (DatabaseView {
                handles: final(self)@.handles,
                cache: ReadView {
                    accounts: final(self)@.cache.accounts,
                    ..old(self)@.cache
                },
                ..old(self)@
            }),
            old(self)@.answers(
                thread,
                old(self)@.cache.accounts,
                account_key_spec(address),
                read,
                final(self)@.handles,
                final(self)@.cache.accounts,
                answer,
            ),
    {
        let ghost before = self@;
        match self.cache.begin_account(address) {
            LoadStep::Ready(answer) => answer,
            _ => {
                let result = self.with_database(thread, read);
                let ghost loaded = result;
                assert(reads_with(
                    before.factory,
                    before.handles,
                    thread,
                    read,
                    self@.handles,
                    loaded,
                ));
                let answer = self.cache.finish_account(address, result);
                assert(self@.cache.accounts =~= before.cache.accounts.insert(
                    account_key_spec(address),
                    Flight::Done(loaded),
                ));
                answer
            },
        }
    }

    /// Reads a contract's code through the cache.
    pub fn code_by_hash_ref<R: FnOnce(&F::Database) -> Result<Bytecode, F::Error>>(
        &mut self,
        thread: u64,
        code_hash: B256,
        read: R,
    ) -> (answer: Result<Bytecode, F::Error>)
        requires
            old(self).wf(),
            flight_of(old(self)@.cache.contracts, code_key_spec(code_hash)) !is Loading,
            forall|database: &F::Database| call_requires(read, (database,)),
        ensures
            final(self).wf(),
            final(self)@ == (DatabaseView {
                handles: final(self)@.handles,
                cache: ReadView {
                    contracts: final(self)@.cache.contracts,
                    ..old(self)@.cache
                },
                ..old(self)@
            }),
            old(self)@.answers(
                thread,
                old(self)@.cache.contracts,
                code_key_spec(code_hash),
                read,
                final(self)@.handles,
                final(self)@.cache.contracts,
                answer,
            ),
    {
        let ghost before = self@;
        match self.cache.begin_code(code_hash) {
            LoadStep::Ready(answer) => answer,
            _ => {
                let result = self.with_database(thread, read);
                let ghost loaded = result;
                assert(reads_with(
                    before.factory,
                    before.handles,
                    thread,
                    read,
                    self@.handles,
                    loaded,
                ));
                let answer = self.cache.finish_code(code_hash, result);
                assert(self@.cache.contracts =~= before.cache.contracts.insert(
                    code_key_spec(code_hash),
                    Flight::Done(loaded),
                ));
                answer
            },
        }
    }

    /// Reads a storage slot through the cache.
    pub fn storage_ref<R: FnOnce(&F::Database) -> Result<U256, F::Error>>(
        &mut self,
        thread: u64,
        address: Address,
        index: U256,
        read: R,
    ) -> (answer: Result<U256, F::Error>)
        requires
            old(self).wf(),
            flight_of(old(self)@.cache.storage, slot_key_spec(address, index)) !is Loading,
            forall|database: &F::Database| call_requires(read, (database,)),
        ensures
            final(self).wf(),
            final(self)@ == (DatabaseView {
                handles: final(self)@.handles,
                cache: ReadView {
                    storage: final(self)@.cache.storage,
                    ..old(self)@.cache
                },
                ..old(self)@
            }),
            old(self)@.answers(
                thread,
                old(self)@.cache.storage,
                slot_key_spec(address, index),
                read,
                final(self)@.handles,
                final(self)@.cache.storage,
                answer,
            ),
    {
        let ghost before = self@;
        match self.cache.begin_storage(address, index) {
            LoadStep::Ready(answer) => answer,
            _ => {
                let result = self.with_database(thread, read);
                let ghost loaded = result;
                assert(reads_with(
                    before.factory,
                    before.handles,
                    thread,
                    read,
                    self@.handles,
                    loaded,
                ));
                let answer = self.cache.finish_storage(address, index, result);
                assert(self@.cache.storage =~= before.cache.storage.insert(
                    slot_key_spec(address, index),
                    Flight::Done(loaded),
                ));
                answer
            },
        }
    }

    /// Reads a block hash through the cache.
    pub fn block_hash_ref<R: FnOnce(&F::Database) -> Result<B256, F::Error>>(
        &mut self,
        thread: u64,
        number: u64,
        read: R,
    ) -> (answer: Result<B256, F::Error>)
        requires
            old(self).wf(),
            flight_of(old(self)@.cache.block_hashes, number_key_spec(number)) !is Loading,
            forall|database: &F::Database| call_requires(read, (database,)),
        ensures
            final(self).wf(),
            final(self)@ == (DatabaseView {
                handles: final(self)@.handles,
                cache: ReadView {
                    block_hashes: final(self)@.cache.block_hashes,
                    ..old(self)@.cache
                },
                ..old(self)@
            }),
            old(self)@.answers(
                thread,
                old(self)@.cache.block_hashes,
                number_key_spec(number),
                read,
                final(self)@.handles,
                final(self)@.cache.block_hashes,
                answer,
            ),
    {
        let ghost before = self@;
        match self.cache.begin_block_hash(number) {
            LoadStep::Ready(answer) => answer,
            _ => {
                let result = self.with_database(thread, read);
                let ghost loaded = result;
                assert(reads_with(
                    before.factory,
                    before.handles,
                    thread,
                    read,
                    self@.handles,
                    loaded,
                ));
                let answer = self.cache.finish_block_hash(number, result);
                assert(self@.cache.block_hashes =~= before.cache.block_hashes.insert(
                    number_key_spec(number),
                    Flight::Done(loaded),
                ));
                answer
            },
        }
    }
}

/// What a read through the cache answers: a known value, or a clone of a known error, without
/// loading; and otherwise what the load gave. Either way the result is known from then on, and no
/// other read changes.
pub proof fn law_reads_answer_what_was_loaded<V, E: Clone, F: FnOnce() -> Result<V, E>>(
    reads: Map<Key, Flight<V, E>>,
    key: Key,
    load: F,
    after: Map<Key, Flight<V, E>>,
    answer: Result<V, E>,
)
    requires
        loads(reads, key, load, after, answer),
    ensures
        after.contains_key(key),
        after[key] is Done,
        match (after[key]->Done_0, answer) {
            (Ok(known), Ok(given)) => given == known,
            (Err(known), Err(given)) => cloned(known, given),
            _ => false,
        },
        reads.contains_key(key) && reads[key] is Done ==> after == reads,
        !(reads.contains_key(key) && reads[key] is Done) ==> call_ensures(
            load,
            (),
            after[key]->Done_0,
        ),
        forall|other: Key|
            other != key ==> (#[trigger] after.contains_key(other)) == reads.contains_key(other) && (
            reads.contains_key(other) ==> after[other] == reads[other]),
{
}

/// Seeding a read makes its value known exactly if nothing was known of it, and changes no other
/// read.
pub proof fn law_seeding_replaces_nothing<V, E>(reads: Map<Key, Flight<V, E>>, key: Key, value: V)
    ensures
        reads.contains_key(key) ==> seeded(reads, key, value) == reads,
        !reads.contains_key(key) ==> seeded(reads, key, value).contains_key(key) && seeded(
            reads,
            key,
            value,
        )[key] == Flight::<V, E>::Done(Ok(value)),
        forall|other: Key|
            other != key ==> (#[trigger] seeded(reads, key, value).contains_key(other))
                == reads.contains_key(other) && (reads.contains_key(other) ==> seeded(
                reads,
                key,
                value,
            )[other] == reads[other]),
{
}

/// A worker that asks for a read is told to load it exactly if nobody has it and nobody is loading
/// it, and is then the one that loads it; it is told to wait while another one loads it, and is
/// given a known result. A load that is given up can be started again; a known result is never
/// given up.
pub proof fn law_one_worker_loads<V, E: Clone>(
    reads: Map<Key, Flight<V, E>>,
    key: Key,
    step: LoadStep<V, E>,
)
    requires
        tells(flight_of(reads, key), step),
    ensures
        step is Load <==> !reads.contains_key(key) || reads[key] is Idle,
        step is Load ==> asked(reads, key) == reads.insert(key, Flight::Loading),
        step is Wait <==> reads.contains_key(key) && reads[key] is Loading,
        step is Ready <==> reads.contains_key(key) && reads[key] is Done,
        !(step is Load) ==> asked(reads, key) == reads,
        step matches LoadStep::Ready(answer) ==> match (reads[key]->Done_0, answer) {
            (Ok(known), Ok(given)) => given == known,
            (Err(known), Err(given)) => cloned(known, given),
            _ => false,
        },
        step is Wait ==> abandoned(reads, key) == reads.insert(key, Flight::Idle),
        !(step is Wait) ==> abandoned(reads, key) == reads,
{
}

/// What a thread's read through the cache answers: a known result, in which case no handle is
/// opened or used; and otherwise what the thread's handle gave, or the error with which creating it
/// failed. The result is known from then on; the handles of other threads stay as they are.
pub proof fn law_threads_read_with_their_handles<
    F: DatabaseFactory,
    T,
    R: FnOnce(&F::Database) -> Result<T, F::Error>,
>(
    view: DatabaseView<F>,
    thread: u64,
    reads: Map<Key, Flight<T, F::Error>>,
    key: Key,
    read: R,
    after: Map<Key, F::Database>,
    reads_after: Map<Key, Flight<T, F::Error>>,
    answer: Result<T, F::Error>,
)
    requires
        view.answers(thread, reads, key, read, after, reads_after, answer),
    ensures
        reads_after.contains_key(key),
        reads_after[key] is Done,
        match (reads_after[key]->Done_0, answer) {
            (Ok(known), Ok(given)) => given == known,
            (Err(known), Err(given)) => cloned(known, given),
            _ => false,
        },
        reads.contains_key(key) && reads[key] is Done ==> reads_after == reads && after
            == view.handles,
        !(reads.contains_key(key) && reads[key] is Done) && view.handles.contains_key(
            number_key_spec(thread),
        ) ==> after == view.handles && call_ensures(
            read,
            (&view.handles[number_key_spec(thread)],),
            reads_after[key]->Done_0,
        ),
        !(reads.contains_key(key) && reads[key] is Done) && !view.handles.contains_key(
            number_key_spec(thread),
        ) && after.contains_key(number_key_spec(thread)) ==> call_ensures(
            read,
            (&after[number_key_spec(thread)],),
            reads_after[key]->Done_0,
        ),
        !(reads.contains_key(key) && reads[key] is Done) && !after.contains_key(
            number_key_spec(thread),
        ) ==> reads_after[key]->Done_0 is Err,
        forall|other: Key|
            other != number_key_spec(thread) ==> (#[trigger] after.contains_key(other))
                == view.handles.contains_key(other) && (view.handles.contains_key(other)
                ==> after[other] == view.handles[other]),
        forall|other: Key|
            other != key ==> (#[trigger] reads_after.contains_key(other)) == reads.contains_key(
                other,
            ) && (reads.contains_key(other) ==> reads_after[other] == reads[other]),
{
}

/// A list of the reads that succeeded names a read exactly if it is known with a value, with that
/// value.
pub proof fn law_successful_reads_are_listed<V, E>(
    reads: Map<Key, Flight<V, E>>,
    list: Seq<(Key, V)>,
    key: Key,
)
    requires
        lists_successful(reads, list),
    ensures
        reads.contains_key(key) && reads[key] is Done && reads[key]->Done_0 is Ok <==> exists|i: int|
            0 <= i < list.len() && (#[trigger] list[i]).0 == key,
        forall|i: int|
            0 <= i < list.len() && (#[trigger] list[i]).0 == key ==> reads[key] == Flight::<
                V,
                E,
            >::Done(Ok(list[i].1)),
{
    if exists|i: int| 0 <= i < list.len() && (#[trigger] list[i]).0 == key {
        let i = choose|i: int| 0 <= i < list.len() && (#[trigger] list[i]).0 == key;
        assert(reads.contains_pair(list[i].0, Flight::Done(Ok(list[i].1))));
    }
}

} // verus!
