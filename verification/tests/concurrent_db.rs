use grevm::account::AccountInfo;
use grevm::concurrent_db::{ConcurrentDatabase, DatabaseFactory, LoadStep, ReadCache};
use grevm::primitives::{Address, B256, U256};
use revm_state::Bytecode;
use std::cell::Cell;
use std::rc::Rc;

const TEST_THREADS: usize = 8;

#[derive(Clone, Copy, Debug, PartialEq, Eq)]
struct TestError;

struct TestDatabase {
    reads: Rc<Cell<usize>>,
    drops: Rc<Cell<usize>>,
    fail: bool,
}

impl Drop for TestDatabase {
    fn drop(&mut self) {
        self.drops.set(self.drops.get() + 1);
    }
}

fn bump(counter: &Cell<usize>) {
    counter.set(counter.get() + 1);
}

impl TestDatabase {
    fn basic(&self, address: Address) -> Result<Option<AccountInfo>, TestError> {
        bump(&self.reads);
        if self.fail {
            Err(TestError)
        } else {
            Ok(Some(AccountInfo { nonce: address[0] as u64, ..Default::default() }))
        }
    }

    fn code_by_hash(&self, _code_hash: B256) -> Result<Bytecode, TestError> {
        bump(&self.reads);
        Ok(Bytecode::default())
    }

    fn storage(&self, _address: Address, index: U256) -> Result<U256, TestError> {
        bump(&self.reads);
        Ok(index)
    }

    fn block_hash(&self, number: u64) -> Result<B256, TestError> {
        bump(&self.reads);
        let mut block_hash = [0; 32];
        block_hash[24..].copy_from_slice(&number.to_be_bytes());
        Ok(block_hash)
    }
}

struct TestFactory {
    creates: Rc<Cell<usize>>,
    reads: Rc<Cell<usize>>,
    drops: Rc<Cell<usize>>,
    fail: bool,
    refuse: bool,
}

impl DatabaseFactory for TestFactory {
    type Database = TestDatabase;
    type Error = TestError;

    fn create(&self) -> Result<TestDatabase, TestError> {
        bump(&self.creates);
        if self.refuse {
            return Err(TestError);
        }
        Ok(TestDatabase { reads: self.reads.clone(), drops: self.drops.clone(), fail: self.fail })
    }
}

struct Counters {
    creates: Rc<Cell<usize>>,
    reads: Rc<Cell<usize>>,
    drops: Rc<Cell<usize>>,
}

fn test_database(fail: bool) -> (ConcurrentDatabase<TestFactory>, Counters) {
    test_factory(fail, false)
}

fn test_factory(fail: bool, refuse: bool) -> (ConcurrentDatabase<TestFactory>, Counters) {
    let creates = Rc::new(Cell::new(0));
    let reads = Rc::new(Cell::new(0));
    let drops = Rc::new(Cell::new(0));
    let counters =
        Counters { creates: creates.clone(), reads: reads.clone(), drops: drops.clone() };
    (ConcurrentDatabase::new(TestFactory { creates, reads, drops, fail, refuse }), counters)
}

fn word(value: u8) -> U256 {
    let mut word = [0; 32];
    word[31] = value;
    word
}

#[test]
fn concurrent_reads_of_one_key_are_single_flight() {
    let (mut database, counters) = test_database(false);
    let address = [0x11; 20];

    for thread in 0..TEST_THREADS as u64 {
        let info = database.basic_ref(thread, address, |database| database.basic(address));
        assert_eq!(info.unwrap().unwrap().nonce, 0x11);
    }

    assert_eq!(counters.reads.get(), 1);
    assert_eq!(counters.creates.get(), 1);
}

#[test]
fn errors_are_single_flight_and_not_exported() {
    let (mut database, counters) = test_database(true);
    let address = [0x22; 20];

    for _ in 0..TEST_THREADS {
        let info = database.basic_ref(0, address, |database| database.basic(address));
        assert_eq!(info, Err(TestError));
    }

    assert_eq!(counters.reads.get(), 1);
    assert_eq!(counters.creates.get(), 1);
    assert_eq!(database.cache().account_reads().len(), 0);
}

#[test]
fn clearing_thread_databases_releases_worker_handles() {
    let (mut database, counters) = test_database(false);

    for index in 0..TEST_THREADS {
        let address = [(index + 1) as u8; 20];
        database.basic_ref(index as u64, address, |database| database.basic(address)).unwrap();
    }

    assert_eq!(counters.creates.get(), TEST_THREADS);
    assert_eq!(database.thread_database_count(), TEST_THREADS);
    assert_eq!(database.clear_thread_databases(), TEST_THREADS);
    assert_eq!(database.thread_database_count(), 0);
    assert_eq!(counters.drops.get(), TEST_THREADS);
    assert_eq!(database.cache().account_reads().len(), TEST_THREADS);
}

#[test]
fn seeded_reads_are_exported_without_opening_a_database() {
    let (mut database, counters) = test_database(false);
    let address = [0x33; 20];
    let code_hash = [0x44; 32];
    let block_hash = [0x55; 32];
    let account = AccountInfo { nonce: 7, ..Default::default() };

    assert!(database.cache_mut().insert_account(address, Some(account.clone())));
    assert!(database.cache_mut().insert_code(code_hash, Bytecode::default()));
    assert!(database.cache_mut().insert_storage(address, word(1), word(2)));
    assert!(database.cache_mut().insert_block_hash(3, block_hash));
    assert!(!database.cache_mut().insert_account(address, None));

    assert_eq!(
        database.basic_ref(0, address, |database| database.basic(address)),
        Ok(Some(account.clone()))
    );
    assert_eq!(
        database.storage_ref(0, address, word(1), |database| database.storage(address, word(1))),
        Ok(word(2))
    );
    assert_eq!(database.block_hash_ref(0, 3, |database| database.block_hash(3)), Ok(block_hash));
    assert_eq!(counters.creates.get(), 0);
    assert_eq!(counters.reads.get(), 0);

    assert_eq!(database.cache().account_reads(), vec![(address, Some(account))]);
    assert_eq!(database.cache().storage_reads(), vec![((address, word(1)), word(2))]);
    assert_eq!(database.cache().block_hash_reads(), vec![(3, block_hash)]);
    assert_eq!(database.cache().code_reads().len(), 1);
}

#[test]
fn every_kind_of_read_is_loaded_once() {
    let (mut database, counters) = test_database(false);
    let address = [0x66; 20];
    let hash = [0x77; 32];
    for _ in 0..3 {
        assert_eq!(
            database.code_by_hash_ref(1, hash, |database| database.code_by_hash(hash)),
            Ok(Bytecode::default())
        );
        assert_eq!(
            database.storage_ref(1, address, word(9), |database| database.storage(address, word(9))),
            Ok(word(9))
        );
        assert_eq!(
            database.block_hash_ref(1, 513, |database| database.block_hash(513)).unwrap()[30..],
            [2, 1]
        );
    }
    assert_eq!(counters.reads.get(), 3);
    assert_eq!(counters.creates.get(), 1);
    assert_eq!(database.cache().storage_reads(), vec![((address, word(9)), word(9))]);
}

#[test]
fn a_handle_that_cannot_be_created_is_a_cached_error() {
    let (mut database, counters) = test_factory(false, true);
    let address = [0x12; 20];
    for _ in 0..2 {
        assert_eq!(
            database.basic_ref(4, address, |database| database.basic(address)),
            Err(TestError)
        );
    }
    assert_eq!(counters.creates.get(), 1);
    assert_eq!(database.thread_database_count(), 0);
    assert_eq!(database.with_database(4, |database| database.basic(address)), Err(TestError));
    assert_eq!(counters.creates.get(), 2);
}

#[test]
fn a_thread_keeps_its_first_handle() {
    let (mut database, counters) = test_database(false);
    let first = TestDatabase {
        reads: counters.reads.clone(),
        drops: counters.drops.clone(),
        fail: true,
    };
    let second = TestDatabase {
        reads: counters.reads.clone(),
        drops: counters.drops.clone(),
        fail: false,
    };
    assert!(database.keep_database(5, first).fail);
    assert!(database.keep_database(5, second).fail);
    assert_eq!(counters.drops.get(), 1);
    assert_eq!(database.thread_database_count(), 1);
    assert_eq!(counters.creates.get(), 0);
}

#[test]
fn waiting_workers_get_the_result_of_the_one_that_loads() {
    let mut cache: ReadCache<TestError> = ReadCache::new();
    let address = [0x01; 20];
    assert!(matches!(cache.begin_account(address), LoadStep::Load));
    assert!(matches!(cache.begin_account(address), LoadStep::Wait));
    // A read in flight is not seeded and not exported.
    assert!(!cache.insert_account(address, None));
    assert_eq!(cache.account_reads().len(), 0);
    // The worker gives up; the next one loads.
    cache.abandon_account(address);
    assert!(matches!(cache.begin_account(address), LoadStep::Load));
    assert_eq!(cache.finish_account(address, Err(TestError)), Err(TestError));
    assert!(matches!(cache.begin_account(address), LoadStep::Ready(Err(TestError))));
    cache.abandon_account(address);
    assert!(matches!(cache.begin_account(address), LoadStep::Ready(Err(TestError))));
}

#[test]
fn shared_reads_of_the_other_kinds_follow_the_same_protocol() {
    let mut cache: ReadCache<TestError> = ReadCache::default();
    let hash = [0x02; 32];
    assert!(matches!(cache.begin_code(hash), LoadStep::Load));
    cache.abandon_code(hash);
    assert!(matches!(cache.begin_code(hash), LoadStep::Load));
    assert_eq!(cache.finish_code(hash, Ok(Bytecode::default())), Ok(Bytecode::default()));
    assert!(matches!(cache.begin_code(hash), LoadStep::Ready(Ok(_))));

    let address = [0x03; 20];
    assert!(matches!(cache.begin_storage(address, word(1)), LoadStep::Load));
    cache.abandon_storage(address, word(1));
    assert!(matches!(cache.begin_storage(address, word(1)), LoadStep::Load));
    assert!(matches!(cache.begin_storage(address, word(2)), LoadStep::Load));
    assert_eq!(cache.finish_storage(address, word(1), Ok(word(8))), Ok(word(8)));
    assert!(matches!(cache.begin_storage(address, word(2)), LoadStep::Wait));

    assert!(matches!(cache.begin_block_hash(7), LoadStep::Load));
    cache.abandon_block_hash(7);
    assert!(matches!(cache.begin_block_hash(7), LoadStep::Load));
    assert_eq!(cache.finish_block_hash(7, Err(TestError)), Err(TestError));
    assert_eq!(cache.block_hash_reads().len(), 0);
    assert_eq!(cache.storage_reads(), vec![((address, word(1)), word(8))]);
}

#[test]
fn loads_through_the_cache_keep_the_first_result() {
    let mut cache: ReadCache<TestError> = ReadCache::new();
    assert_eq!(cache.load_account([1; 20], || Ok(None)), Ok(None));
    assert_eq!(cache.load_account([1; 20], || Err(TestError)), Ok(None));
    assert_eq!(cache.load_code([1; 32], || Err(TestError)), Err(TestError));
    assert_eq!(cache.load_code([1; 32], || Ok(Bytecode::default())), Err(TestError));
    assert_eq!(cache.load_storage([1; 20], word(1), || Ok(word(4))), Ok(word(4)));
    assert_eq!(cache.load_storage([1; 20], word(1), || Ok(word(5))), Ok(word(4)));
    assert_eq!(cache.load_block_hash(1, || Ok([9; 32])), Ok([9; 32]));
    assert_eq!(cache.load_block_hash(1, || Err(TestError)), Ok([9; 32]));
}
