//! Why a parallel run gives what sequential execution gives.
//!
//! A block is a [`Program`]: what each transaction does, and whether it can be executed at all, is a
//! function of the values that it reads.
//! An invariant says which values every standing incarnation found; every step of the scheduler
//! keeps it as long as executions are faithful to the program. It implies that a final transaction
//! found exactly the values that sequential execution leaves before it, so it is one that sequential
//! execution executes, too, and its output is the sequential one.

use crate::commit::CommitOutcome;
use crate::config::GrevmConfig;
use crate::model::{ExecutionAttempt, LocationId, ReadVersion, TransactionStatus, TxVersion};
use crate::mv_memory::{
    last_writer, latest_before, lemma_is_last_writer, lemma_last_writer, read_valid, reads_valid,
    Cells, MemoryView,
};
use crate::outcome::TxExecutionOutcome;
use crate::prefix::{describes, describes_last, law_commit_keeps_the_prefix, Step};
use crate::read_set::versions;
use crate::scheduler::initial_view;
use crate::scheduler_view::{
    attempt_conflicts, attempt_located, writes_new_locations, SchedulerView,
};
use crate::soundness::{
    law_claim_keeps_soundness, law_commit_finds_an_output, law_new_location_keeps_soundness,
    law_start_keeps_soundness, law_validation_keeps_soundness, lemma_attempt_cells,
    lemma_attempt_repeated, lemma_attempt_rolled_back, lemma_attempted,
    lemma_finalized_next_sound, stands,
};
use crate::tx_dependency::TxId;
use crate::tx_set::members;
use revm_context::result::EVMError;
use vstd::prelude::*;

verus! {

/// The value at every location.
pub type Values<V> = spec_fn(LocationId) -> V;

/// What a transaction does when it is executed on given values.
#[verifier::ext_equal]
#[verifier::reject_recursive_types(V)]
#[verifier::reject_recursive_types(R)]
pub struct Effect<V, R> {
    /// The locations that it reads.
    pub reads: Set<LocationId>,
    /// The locations that it writes, with the values.
    pub writes: Map<LocationId, V>,
    /// Its output.
    pub output: R,
}

/// What becomes of a transaction that is executed on given values.
pub enum Verdict {
    /// It is executed.
    Executes,
    /// It is invalid; the policy says what that means for the block.
    Invalid,
    /// Executing it fails, and the block with it.
    Fails,
}

/// What a result of the EVM says of a transaction.
pub open spec fn verdict_of<T, E>(result: Result<T, EVMError<E>>) -> Verdict {
    match result {
        Ok(_) => Verdict::Executes,
        Err(EVMError::Transaction(_)) => Verdict::Invalid,
        Err(_) => Verdict::Fails,
    }
}

/// A block of transactions on top of a state.
#[verifier::reject_recursive_types(V)]
#[verifier::reject_recursive_types(R)]
pub struct Program<V, R> {
    /// The values before the block.
    pub base: Values<V>,
    /// What each transaction does on given values; of one that cannot be executed, what a policy
    /// that goes on without it makes of it.
    pub run: spec_fn(TxId, Values<V>) -> Effect<V, R>,
    /// What becomes of each transaction on given values.
    pub verdict: spec_fn(TxId, Values<V>) -> Verdict,
}

/// The values after some of them were overwritten.
pub open spec fn overwritten<V>(values: Values<V>, writes: Map<LocationId, V>) -> Values<V> {
    |location: LocationId|
        if writes.contains_key(location) {
            writes[location]
        } else {
            values(location)
        }
}

impl<V, R> Program<V, R> {
    /// What a transaction does, and whether it can be executed, depends on the values that it reads
    /// alone.
    pub open spec fn deterministic(self) -> bool {
        forall|txid: TxId, a: Values<V>, b: Values<V>|
            #![trigger (self.run)(txid, a), (self.run)(txid, b)]
            (forall|l: LocationId| #[trigger]
                (self.run)(txid, a).reads.contains(l) ==> a(l) == b(l)) ==> {
                &&& (self.run)(txid, a) == (self.run)(txid, b)
                &&& (self.verdict)(txid, a) == (self.verdict)(txid, b)
            }
    }

    /// The values that sequential execution leaves before `txid`.
    pub open spec fn values_before(self, txid: int) -> Values<V>
        decreases txid, 0int,
    {
        if txid <= 0 {
            self.base
        } else {
            overwritten(self.values_before(txid - 1), self.sequential_effect(txid - 1).writes)
        }
    }

    /// What `txid` does in sequential execution.
    pub open spec fn sequential_effect(self, txid: int) -> Effect<V, R>
        decreases txid, 1int,
    {
        (self.run)(txid as usize, self.values_before(txid))
    }

    /// What becomes of `txid` in sequential execution.
    pub open spec fn sequential_verdict(self, txid: int) -> Verdict {
        (self.verdict)(txid as usize, self.values_before(txid))
    }
}

/// The values that each incarnation found whose result stood when it was recorded.
pub type Findings<V> = Map<TxVersion, Values<V>>;

/// The longer findings agree with the shorter ones.
pub open spec fn extends<V>(found: Findings<V>, longer: Findings<V>) -> bool {
    forall|v: TxVersion| #[trigger]
        found.contains_key(v) ==> longer.contains_key(v) && longer[v] == found[v]
}

/// What an incarnation did, by the values that it found.
pub open spec fn effect_of<V, R>(
    program: Program<V, R>,
    found: Findings<V>,
    version: TxVersion,
) -> Effect<V, R> {
    (program.run)(version.txid, found[version])
}

/// The value that a read of the given version sees.
pub open spec fn value_of<V, R>(
    program: Program<V, R>,
    found: Findings<V>,
    version: ReadVersion,
    location: LocationId,
) -> V {
    match version {
        ReadVersion::MvMemory(seen) => effect_of(program, found, seen).writes[location],
        ReadVersion::Storage => (program.base)(location),
    }
}

/// The version that a read saw is one whose findings are known.
pub open spec fn version_known<V>(found: Findings<V>, version: ReadVersion) -> bool {
    version matches ReadVersion::MvMemory(seen) ==> found.contains_key(seen)
}

/// The value that a transaction at `txid` would read now.
pub open spec fn visible<V, R>(
    program: Program<V, R>,
    found: Findings<V>,
    cells: Cells,
    location: LocationId,
    txid: TxId,
) -> V {
    match latest_before(cells, location, txid) {
        Some((writer, entry)) => effect_of(
            program,
            found,
            TxVersion { txid: writer, incarnation: entry.incarnation },
        ).writes[location],
        None => (program.base)(location),
    }
}

/// The memory holds a write of `txid` at the location.
pub open spec fn writes_at(cells: Cells, location: LocationId, txid: TxId) -> bool {
    location < cells.len() && cells[location as int].contains_key(txid)
}

/// The attempt is what the program does on the values found, and every value found is the one that
/// the recorded version of the read had.
pub open spec fn faithful<V, R, E>(
    program: Program<V, R>,
    found: Findings<V>,
    version: TxVersion,
    attempt: ExecutionAttempt<R, E>,
    values: Values<V>,
) -> bool {
    match attempt {
        ExecutionAttempt::Done { read_set, write_set, output, .. } => {
            let effect = (program.run)(version.txid, values);
            &&& (program.verdict)(version.txid, values) is Executes
            &&& output == effect.output
            &&& members(write_set) == effect.writes.dom()
            &&& forall|l: LocationId| #[trigger]
                effect.reads.contains(l) ==> {
                    &&& versions(read_set).contains_key(l)
                    &&& version_known(found, versions(read_set)[l])
                    &&& values(l) == value_of(program, found, versions(read_set)[l], l)
                }
        },
        ExecutionAttempt::Failed { .. } => false,
    }
}

/// The error is what becomes of the transaction on the values found, and every value found is the
/// one that the memory shows to the transaction.
pub open spec fn faithful_failure<V, R, E>(
    program: Program<V, R>,
    found: Findings<V>,
    cells: Cells,
    txid: TxId,
    error: EVMError<E>,
    values: Values<V>,
) -> bool {
    &&& (program.verdict)(txid, values) == verdict_of(Err::<R, EVMError<E>>(error))
    &&& forall|l: LocationId| #[trigger]
        (program.run)(txid, values).reads.contains(l) ==> values(l) == visible(
            program,
            found,
            cells,
            l,
            txid,
        )
}

impl<S, R, E> SchedulerView<S, R, E> {
    /// The incarnation of a transaction that was started last.
    pub open spec fn current(self, txid: int) -> TxVersion {
        TxVersion { txid: txid as usize, incarnation: self.states[txid].incarnation }
    }

    /// Findings are of incarnations that were started and, unless it stands, not of the one that
    /// is being executed.
    pub open spec fn findings_past<V>(self, found: Findings<V>) -> bool {
        &&& forall|t: int|
            0 <= t < self.states.len() ==> (#[trigger] self.states[t]).incarnation <= self.starts
        &&& forall|v: TxVersion| #[trigger]
            found.contains_key(v) ==> {
                &&& v.txid < self.states.len()
                &&& v.incarnation <= self.states[v.txid as int].incarnation
                &&& self.states[v.txid as int].status == TransactionStatus::Executing
                    ==> v.incarnation < self.states[v.txid as int].incarnation
            }
    }

    /// The standing incarnation of a transaction did what the program does on the values that it
    /// found: its writes are those in the memory, its output is the one recorded, and it found the
    /// values of the versions that it read. A final one found what it would read now.
    pub open spec fn explains<V>(
        self,
        program: Program<V, R>,
        found: Findings<V>,
        txid: int,
    ) -> bool {
        let version = self.current(txid);
        let effect = effect_of(program, found, version);
        &&& found.contains_key(version)
        &&& (program.verdict)(version.txid, found[version]) is Executes
        &&& forall|l: LocationId|
            #[trigger] writes_at(self.memory.cells, l, txid as usize)
                == effect.writes.contains_key(l)
        &&& self.results[txid] matches Some(result) ==> {
            &&& result.outcome == Ok::<R, EVMError<E>>(effect.output)
            &&& forall|l: LocationId| #[trigger]
                effect.reads.contains(l) ==> {
                    &&& result.reads.contains_key(l)
                    &&& version_known(found, result.reads[l])
                    &&& found[version](l) == value_of(program, found, result.reads[l], l)
                }
        }
        &&& txid < self.ctx.finality ==> forall|l: LocationId| #[trigger]
            effect.reads.contains(l) ==> found[version](l) == visible(
                program,
                found,
                self.memory.cells,
                l,
                txid as usize,
            )
    }

    /// Every standing incarnation is explained by the program.
    pub open spec fn explained<V>(self, program: Program<V, R>, found: Findings<V>) -> bool {
        &&& self.findings_past(found)
        &&& forall|t: int|
            0 <= t < self.states.len() && stands((#[trigger] self.states[t]).status)
                ==> self.explains(program, found, t)
    }
}

/// A transaction whose standing result a step leaves alone.
spec fn left_alone<S, R, E>(
    before: SchedulerView<S, R, E>,
    after: SchedulerView<S, R, E>,
    t: int,
) -> bool {
    &&& stands(before.states[t].status)
    &&& after.states[t].incarnation == before.states[t].incarnation
    &&& after.results[t] == before.results[t] || after.results[t] is None
    &&& forall|l: LocationId|
        #[trigger] writes_at(after.memory.cells, l, t as usize) == writes_at(
            before.memory.cells,
            l,
            t as usize,
        )
}

/// What a final transaction would read does not change while earlier ones are left alone.
proof fn lemma_visible<S, R, E, V>(
    before: SchedulerView<S, R, E>,
    after: SchedulerView<S, R, E>,
    program: Program<V, R>,
    found: Findings<V>,
    longer: Findings<V>,
    location: LocationId,
    t: int,
)
    requires
        before.explained(program, found),
        before.cursors_sound(),
        before.memory_sound(),
        after.cursors_sound(),
        after.memory_sound(),
        after.states.len() == before.states.len(),
        after.ctx.finality >= before.ctx.finality,
        0 <= t <= before.ctx.finality,
        extends(found, longer),
        forall|w: int| 0 <= w < t ==> left_alone(before, after, w),
    ensures
        visible(program, longer, after.memory.cells, location, t as usize) == visible(
            program,
            found,
            before.memory.cells,
            location,
            t as usize,
        ),
{
    let a = before.memory.cells;
    let b = after.memory.cells;
    if location < a.len() {
        lemma_last_writer(a[location as int], t);
    }
    let writer = if location < a.len() {
        last_writer(a[location as int], t)
    } else {
        -1
    };
    assert forall|w: TxId| w < t implies writes_at(b, location, w) == writes_at(
        a,
        location,
        w,
    ) by {
        assert(left_alone(before, after, w as int));
    }
    if location < b.len() {
        assert forall|w: TxId| writer < w < t implies !(
        #[trigger] b[location as int].contains_key(w)) by {
            assert(writes_at(b, location, w) == writes_at(a, location, w));
        }
        if writer >= 0 {
            assert(writes_at(a, location, writer as usize));
        }
        lemma_is_last_writer(b[location as int], t, writer);
    }
    if writer >= 0 {
        assert(writes_at(a, location, writer as usize));
        assert(writes_at(b, location, writer as usize));
        assert(left_alone(before, after, writer));
        assert(a[location as int].contains_key(writer as usize));
        assert(b[location as int].contains_key(writer as usize));
        assert(before.states[writer].status == TransactionStatus::Finality);
        assert(after.states[writer].status == TransactionStatus::Finality);
        assert(before.explains(program, found, writer));
        assert(found.contains_key(before.current(writer)));
    }
}

/// Explanations carry over to a view in which all but one transaction are left alone.
proof fn lemma_explanations_carry_over<S, R, E, V>(
    before: SchedulerView<S, R, E>,
    after: SchedulerView<S, R, E>,
    program: Program<V, R>,
    found: Findings<V>,
    longer: Findings<V>,
    except: int,
)
    requires
        before.explained(program, found),
        before.cursors_sound(),
        before.memory_sound(),
        after.cursors_sound(),
        after.memory_sound(),
        after.states.len() == before.states.len(),
        after.ctx.finality == before.ctx.finality,
        except < 0 || except >= before.ctx.finality,
        extends(found, longer),
        forall|t: int|
            0 <= t < before.states.len() && t != except && stands(
                (#[trigger] after.states[t]).status,
            ) ==> left_alone(before, after, t),
    ensures
        forall|t: int|
            0 <= t < before.states.len() && t != except && stands(
                (#[trigger] after.states[t]).status,
            ) ==> after.explains(program, longer, t),
{
    assert forall|t: int|
        0 <= t < before.states.len() && t != except && stands(
            (#[trigger] after.states[t]).status,
        ) implies after.explains(program, longer, t) by {
        assert(left_alone(before, after, t));
        assert(stands(before.states[t].status));
        assert(before.explains(program, found, t));
        let version = before.current(t);
        assert(found.contains_key(version));
        assert(longer[version] == found[version]);
        let effect = effect_of(program, found, version);
        assert forall|l: LocationId|
            #[trigger] writes_at(after.memory.cells, l, t as usize)
                == effect.writes.contains_key(l) by {
            assert(writes_at(before.memory.cells, l, t as usize)
                == effect.writes.contains_key(l));
        }
        if after.results[t] is Some {
            let reads = before.results[t]->0.reads;
            assert forall|l: LocationId| #[trigger] effect.reads.contains(l) implies {
                &&& reads.contains_key(l)
                &&& version_known(longer, reads[l])
                &&& longer[version](l) == value_of(program, longer, reads[l], l)
            } by {
                assert(version_known(found, reads[l]));
                assert(found[version](l) == value_of(program, found, reads[l], l));
            }
        }
        if t < after.ctx.finality {
            assert forall|l: LocationId| #[trigger] effect.reads.contains(l) implies longer[version](
                l,
            ) == visible(program, longer, after.memory.cells, l, t as usize) by {
                assert forall|w: int| 0 <= w < t implies left_alone(before, after, w) by {
                    assert(after.states[w].status == TransactionStatus::Finality);
                }
                lemma_visible(before, after, program, found, longer, l, t);
            }
        }
    }
}

/// A scheduler that has not started has nothing to explain.
pub proof fn law_initial_is_explained<S, R, E, V>(
    program: Program<V, R>,
    block_size: nat,
    state: S,
    config: GrevmConfig,
)
    ensures
        initial_view::<S, R, E>(block_size, state, config).explained(program, Map::empty()),
{
}

/// Explanations do not depend on how the run is controlled, counted or rolled back, nor on the
/// canonical state.
pub proof fn law_control_keeps_explanations<S, R, E, V>(
    program: Program<V, R>,
    found: Findings<V>,
    before: SchedulerView<S, R, E>,
    after: SchedulerView<S, R, E>,
)
    requires
        before.explained(program, found),
        after.states == before.states,
        after.results == before.results,
        after.memory.cells == before.memory.cells,
        after.ctx.finality == before.ctx.finality,
        after.starts == before.starts,
    ensures
        after.explained(program, found),
{
    assert forall|t: int|
        0 <= t < after.states.len() && stands(
            (#[trigger] after.states[t]).status,
        ) implies after.explains(program, found, t) by {
        assert(stands(before.states[t].status));
        assert(before.explains(program, found, t));
    }
}

/// Sending a worker to a transaction keeps explanations.
pub proof fn law_start_keeps_explanations<S, R, E, V>(
    program: Program<V, R>,
    found: Findings<V>,
    before: SchedulerView<S, R, E>,
    txid: TxId,
)
    requires
        before.sound(),
        before.explained(program, found),
        before.starts < usize::MAX,
        txid < before.states.len(),
    ensures
        before.sent_to(txid).explained(program, found),
{
    let after = before.sent_to(txid);
    law_start_keeps_soundness(before, txid);
    assert(before.states[txid as int].incarnation <= before.starts);
    lemma_explanations_carry_over(before, after, program, found, found, -1);
}

/// Claiming a transaction for validation keeps explanations.
pub proof fn law_claim_keeps_explanations<S, R, E, V>(
    program: Program<V, R>,
    found: Findings<V>,
    before: SchedulerView<S, R, E>,
    execution_idx: usize,
)
    requires
        before.sound(),
        before.explained(program, found),
    ensures
        before.validation_claimed(execution_idx).explained(program, found),
{
    let after = before.validation_claimed(execution_idx);
    law_claim_keeps_soundness(before, execution_idx);
    lemma_explanations_carry_over(before, after, program, found, found, -1);
}

/// A validation keeps explanations.
pub proof fn law_validation_keeps_explanations<S, R, E, V>(
    program: Program<V, R>,
    found: Findings<V>,
    before: SchedulerView<S, R, E>,
    txid: TxId,
)
    requires
        before.sound(),
        before.explained(program, found),
        txid < before.states.len(),
        before.states[txid as int].status == TransactionStatus::Validating,
        before.ctx.clock <= usize::MAX - 2,
    ensures
        before.validated(txid).explained(program, found),
{
    let after = before.validated(txid);
    law_validation_keeps_soundness(before, txid);
    assert(stands(before.states[txid as int].status));
    assert(before.results[txid as int] is Some);
    assert forall|t: int|
        0 <= t < before.states.len() && stands(
            (#[trigger] after.states[t]).status,
        ) implies left_alone(before, after, t) by {
        if t != txid {
            assert(after.states[t] == before.states[t]);
        }
        assert(stands(before.states[t].status));
    }
    lemma_explanations_carry_over(before, after, program, found, found, -1);
}

/// The findings after an attempt: one that stands adds its own.
pub open spec fn findings_after<V, R, E>(
    found: Findings<V>,
    version: TxVersion,
    attempt: ExecutionAttempt<R, E>,
    values: Values<V>,
) -> Findings<V> {
    if attempt_conflicts(attempt) {
        found
    } else {
        found.insert(version, values)
    }
}

/// Recording an attempt keeps explanations.
proof fn lemma_attempt_explained<S, R, E, V>(
    program: Program<V, R>,
    found: Findings<V>,
    before: SchedulerView<S, R, E>,
    version: TxVersion,
    commit_idx: usize,
    attempt: ExecutionAttempt<R, E>,
    values: Values<V>,
)
    requires
        before.sound(),
        before.explained(program, found),
        before.executing(version),
        attempt_located(attempt, before.memory.cells.len()),
        !attempt_conflicts(attempt) ==> faithful(program, found, version, attempt, values),
    ensures
        before.attempted(version, commit_idx, attempt).explained(
            program,
            findings_after(found, version, attempt, values),
        ),
{
    let after = before.attempted(version, commit_idx, attempt);
    let longer = findings_after(found, version, attempt, values);
    let txid = version.txid as int;
    lemma_attempted(before, version, commit_idx, attempt);
    lemma_attempt_cells(before, version, attempt);
    assert(!stands(before.states[txid].status));
    assert(before.ctx.finality <= txid);
    assert(!found.contains_key(version));
    assert(extends(found, longer));
    assert forall|t: int|
        0 <= t < before.states.len() && t != txid && stands(
            (#[trigger] after.states[t]).status,
        ) implies left_alone(before, after, t) by {
        assert(after.states[t] == before.states[t]);
        assert forall|l: LocationId|
            #[trigger] writes_at(after.memory.cells, l, t as usize) == writes_at(
                before.memory.cells,
                l,
                t as usize,
            ) by {
            if l < before.memory.cells.len() {
                assert(before.memory.cells[l as int].contains_key(t as usize)
                    == after.memory.cells[l as int].contains_key(t as usize));
            }
        }
    }
    lemma_explanations_carry_over(before, after, program, found, longer, txid);
    if !attempt_conflicts(attempt) {
        let effect = (program.run)(version.txid, values);
        assert(after.current(txid) == version);
        assert forall|l: LocationId|
            #[trigger] writes_at(after.memory.cells, l, txid as usize)
                == effect.writes.contains_key(l) by {
            if l < before.memory.cells.len() {
                assert(before.cells_after(version, attempt)[l as int].contains_key(version.txid)
                    == before.result_after(version, attempt).writes.contains(l));
            }
            if effect.writes.contains_key(l) {
                assert(before.result_after(version, attempt).writes.contains(l));
            }
        }
        let reads = before.result_after(version, attempt).reads;
        assert forall|l: LocationId| #[trigger] effect.reads.contains(l) implies {
            &&& reads.contains_key(l)
            &&& version_known(longer, reads[l])
            &&& longer[version](l) == value_of(program, longer, reads[l], l)
        } by {
            assert(version_known(found, reads[l]));
            assert(values(l) == value_of(program, found, reads[l], l));
        }
        assert(after.explains(program, longer, txid));
    }
    assert(after.findings_past(longer));
}

/// An execution keeps explanations, however the dependency graph answers, as long as an attempt
/// that stands is faithful to the program.
pub proof fn law_execution_keeps_explanations<S, R, E, V>(
    program: Program<V, R>,
    found: Findings<V>,
    before: SchedulerView<S, R, E>,
    version: TxVersion,
    commit_idx: usize,
    attempt: ExecutionAttempt<R, E>,
    next: Option<TxId>,
    values: Values<V>,
)
    requires
        before.sound(),
        before.headroom(),
        before.explained(program, found),
        before.executing(version),
        attempt_located(attempt, before.memory.cells.len()),
        !attempt_conflicts(attempt) ==> faithful(program, found, version, attempt, values),
        next matches Some(txid) ==> txid < before.states.len(),
    ensures
        before.settled(version, commit_idx, attempt, next).explained(
            program,
            findings_after(found, version, attempt, values),
        ),
{
    let longer = findings_after(found, version, attempt, values);
    let attempted = before.attempted(version, commit_idx, attempt);
    let txid = version.txid as int;
    lemma_attempt_explained(program, found, before, version, commit_idx, attempt, values);
    lemma_attempted(before, version, commit_idx, attempt);
    if attempt_conflicts(attempt) {
        law_control_keeps_explanations(program, longer, attempted, attempted.rewound(txid + 1));
    } else if next is Some {
        lemma_attempt_rolled_back(before, version, commit_idx, attempt, txid);
        law_control_keeps_explanations(program, longer, attempted, attempted.rewound(txid));
        law_start_keeps_explanations(program, longer, attempted.rewound(txid), next->0);
    } else if writes_new_locations(
        before.results[txid],
        before.result_after(version, attempt).writes,
    ) {
        law_control_keeps_explanations(program, longer, attempted, attempted.rewound(txid));
    } else {
        let after = attempted.with_status(version.txid, TransactionStatus::Validating);
        lemma_attempt_repeated(before, version, commit_idx, attempt);
        lemma_explanations_carry_over(attempted, after, program, longer, longer, -1);
        assert(after.findings_past(longer));
    }
}

/// A transaction that becomes final found what it would read now.
proof fn lemma_finalized_next_explained<S, R, E, V>(
    program: Program<V, R>,
    found: Findings<V>,
    before: SchedulerView<S, R, E>,
)
    requires
        before.sound(),
        before.explained(program, found),
        before.finality_candidate() is Some,
    ensures
        before.finalized_next().explained(program, found),
{
    let after = before.finalized_next();
    let txid = before.ctx.finality;
    lemma_finalized_next_sound(before);
    assert(stands(before.states[txid].status));
    assert(before.explains(program, found, txid));
    assert(before.results[txid] is Some);
    assert(after.results[txid] is Some);
    let version = before.current(txid);
    let effect = effect_of(program, found, version);
    let reads = before.results[txid]->0.reads;
    assert(reads_valid(after.memory.cells, txid as usize, reads));
    assert forall|l: LocationId| #[trigger] effect.reads.contains(l) implies found[version](l)
        == visible(program, found, after.memory.cells, l, txid as usize) by {
        assert(reads.contains_key(l));
        assert(read_valid(after.memory.cells, txid as usize, l, reads[l]));
    }
    assert(after.explains(program, found, txid));
    assert forall|t: int|
        0 <= t < after.states.len() && stands(
            (#[trigger] after.states[t]).status,
        ) implies after.explains(program, found, t) by {
        if t != txid {
            assert(after.states[t] == before.states[t]);
            assert(before.explains(program, found, t));
        }
    }
}

/// Making transactions final keeps explanations.
pub proof fn law_finality_keeps_explanations<S, R, E, V>(
    program: Program<V, R>,
    found: Findings<V>,
    before: SchedulerView<S, R, E>,
)
    requires
        before.sound(),
        before.explained(program, found),
    ensures
        before.finalized().explained(program, found),
    decreases before.states.len() - before.ctx.finality,
{
    if before.finality_candidate() is Some {
        lemma_finalized_next_sound(before);
        lemma_finalized_next_explained(program, found, before);
        law_finality_keeps_explanations(program, found, before.finalized_next());
    }
}

/// Taking the result of a final transaction and committing it keeps explanations.
pub proof fn law_commit_keeps_explanations<S, R, E, V>(
    program: Program<V, R>,
    found: Findings<V>,
    before: SchedulerView<S, R, E>,
    after: SchedulerView<S, R, E>,
)
    requires
        before.explained(program, found),
        before.commit_pending(),
        0 <= before.ctx.committed,
        before.results.len() == before.states.len(),
        before.ctx.finality <= before.states.len(),
        after.states == before.states,
        after.results == before.results.update(before.ctx.committed, None),
        after.memory.cells == before.memory.cells,
        after.ctx.finality == before.ctx.finality,
        after.starts == before.starts,
    ensures
        after.explained(program, found),
{
    assert forall|t: int|
        0 <= t < after.states.len() && stands(
            (#[trigger] after.states[t]).status,
        ) implies after.explains(program, found, t) by {
        assert(stands(before.states[t].status));
        assert(before.explains(program, found, t));
    }
}

/// Learning of a new location keeps explanations.
pub proof fn law_new_location_keeps_explanations<S, R, E, V>(
    program: Program<V, R>,
    found: Findings<V>,
    before: SchedulerView<S, R, E>,
    after: SchedulerView<S, R, E>,
)
    requires
        before.sound(),
        before.explained(program, found),
        before.memory.cells.len() < usize::MAX,
        after == (SchedulerView {
            memory: MemoryView {
                ids: after.memory.ids,
                cells: before.memory.cells.push(Map::empty()),
            },
            ..before
        }),
    ensures
        after.explained(program, found),
{
    law_new_location_keeps_soundness(before, after);
    assert forall|t: int|
        0 <= t < before.states.len() && stands(
            (#[trigger] after.states[t]).status,
        ) implies left_alone(before, after, t) by {}
    lemma_explanations_carry_over(before, after, program, found, found, -1);
}

/// Before every final transaction, and behind the last one, the memory shows the values that
/// sequential execution leaves there.
proof fn lemma_values_are_sequential<S, R, E, V>(
    program: Program<V, R>,
    found: Findings<V>,
    view: SchedulerView<S, R, E>,
    txid: int,
)
    requires
        view.cursors_sound(),
        view.memory_sound(),
        view.explained(program, found),
        program.deterministic(),
        0 <= txid <= view.ctx.finality,
    ensures
        forall|l: LocationId| #[trigger]
            visible(program, found, view.memory.cells, l, txid as usize)
                == program.values_before(txid)(l),
        forall|t: int|
            0 <= t < txid ==> #[trigger] effect_of(program, found, view.current(t))
                == program.sequential_effect(t),
        forall|t: int| 0 <= t < txid ==> #[trigger] program.sequential_verdict(t) is Executes,
    decreases txid,
{
    let cells = view.memory.cells;
    if txid > 0 {
        let t = txid - 1;
        lemma_values_are_sequential(program, found, view, t);
        assert(view.states[t].status == TransactionStatus::Finality);
        assert(view.explains(program, found, t));
        let version = view.current(t);
        let effect = effect_of(program, found, version);
        assert(effect == program.sequential_effect(t) && program.sequential_verdict(
            t,
        ) is Executes) by {
            let a = found[version];
            let b = program.values_before(t);
            assert forall|l: LocationId| #[trigger]
                (program.run)(t as usize, a).reads.contains(l) implies a(l) == b(l) by {
                assert(effect.reads.contains(l));
                assert(visible(program, found, cells, l, t as usize) == b(l));
            }
            assert((program.run)(t as usize, a) == (program.run)(t as usize, b));
        }
        assert forall|l: LocationId| #[trigger]
            visible(program, found, cells, l, txid as usize) == program.values_before(txid)(
                l,
            ) by {
            assert(visible(program, found, cells, l, t as usize) == program.values_before(t)(l));
            assert(writes_at(cells, l, t as usize) == effect.writes.contains_key(l));
            if l < cells.len() {
                assert(last_writer(cells[l as int], txid) == if cells[l as int].contains_key(
                    t as usize,
                ) {
                    t
                } else {
                    last_writer(cells[l as int], t)
                });
            }
        }
    }
}

/// A parallel run gives what sequential execution gives: every final transaction did exactly what
/// it does when the block is executed one transaction after the other, it read the same values and
/// wrote the same ones, and the output recorded for it is the sequential one.
pub proof fn law_parallel_equals_sequential<S, R, E, V>(
    program: Program<V, R>,
    found: Findings<V>,
    view: SchedulerView<S, R, E>,
    txid: int,
    location: LocationId,
)
    requires
        view.sound(),
        view.explained(program, found),
        program.deterministic(),
        0 <= txid < view.ctx.finality,
    ensures
        effect_of(program, found, view.current(txid)) == program.sequential_effect(txid),
        writes_at(view.memory.cells, location, txid as usize) == program.sequential_effect(
            txid,
        ).writes.contains_key(location),
        visible(program, found, view.memory.cells, location, txid as usize)
            == program.values_before(txid)(location),
        view.results[txid] matches Some(result) ==> result.outcome == Ok::<R, EVMError<E>>(
            program.sequential_effect(txid).output,
        ),
{
    lemma_values_are_sequential(program, found, view, txid + 1);
    lemma_values_are_sequential(program, found, view, txid);
    assert(effect_of(program, found, view.current(txid)) == program.sequential_effect(txid));
    assert(view.states[txid].status == TransactionStatus::Finality);
    assert(view.explains(program, found, txid));
}

/// A transaction that became final is one that sequential execution executes, too: a parallel run
/// never takes an invalid or failing transaction into the block.
pub proof fn law_final_transactions_execute<S, R, E, V>(
    program: Program<V, R>,
    found: Findings<V>,
    view: SchedulerView<S, R, E>,
    txid: int,
)
    requires
        view.sound(),
        view.explained(program, found),
        program.deterministic(),
        0 <= txid < view.ctx.finality,
    ensures
        program.sequential_verdict(txid) is Executes,
{
    lemma_values_are_sequential(program, found, view, txid + 1);
}

/// At the first transaction that is not final the memory shows the values that sequential execution
/// leaves before it.
pub proof fn law_boundary_sees_sequential_values<S, R, E, V>(
    program: Program<V, R>,
    found: Findings<V>,
    view: SchedulerView<S, R, E>,
    location: LocationId,
)
    requires
        view.sound(),
        view.explained(program, found),
        program.deterministic(),
    ensures
        visible(program, found, view.memory.cells, location, view.ctx.finality as usize)
            == program.values_before(view.ctx.finality)(location),
{
    lemma_values_are_sequential(program, found, view, view.ctx.finality);
}

/// An execution that fails at the first transaction that is not final fails as sequential execution
/// does.
pub proof fn law_boundary_failure_is_sequential<S, R, E, V>(
    program: Program<V, R>,
    found: Findings<V>,
    view: SchedulerView<S, R, E>,
    error: EVMError<E>,
    values: Values<V>,
)
    requires
        view.sound(),
        view.explained(program, found),
        program.deterministic(),
        faithful_failure(
            program,
            found,
            view.memory.cells,
            view.ctx.finality as usize,
            error,
            values,
        ),
    ensures
        program.sequential_verdict(view.ctx.finality) == verdict_of(Err::<R, EVMError<E>>(error)),
{
    let txid = view.ctx.finality;
    let b = program.values_before(txid);
    lemma_values_are_sequential(program, found, view, txid);
    assert forall|l: LocationId| #[trigger]
        (program.run)(txid as usize, values).reads.contains(l) implies values(l) == b(l) by {
        assert(visible(program, found, view.memory.cells, l, txid as usize) == b(l));
    }
    assert((program.run)(txid as usize, values) == (program.run)(txid as usize, b));
}

/// What committing an output makes of a state.
pub type Apply<S, R> = spec_fn(S, R) -> (TxExecutionOutcome, S);

/// A transaction takes the state one step further by committing its sequential output.
pub open spec fn ordered_step<S, R, V>(program: Program<V, R>, apply: Apply<S, R>) -> Step<S> {
    |txid: TxId, before: S, outcome: TxExecutionOutcome, after: S|
        (outcome, after) == apply(before, program.sequential_effect(txid as int).output)
}

/// The ordered commit hands out sequential outputs, so committing them one after the other
/// describes sequential execution.
pub proof fn law_ordered_commit_is_sequential<S, R, E, V>(
    program: Program<V, R>,
    found: Findings<V>,
    apply: Apply<S, R>,
    initial: S,
    before: SchedulerView<S, R, E>,
    outcome: TxExecutionOutcome,
    state: S,
)
    requires
        before.sound(),
        before.intact(),
        before.explained(program, found),
        program.deterministic(),
        before.commit_pending(),
        before.outcomes.len() == before.ctx.committed,
        before.prefix_described(ordered_step(program, apply), initial),
        (outcome, state) == apply(
            before.state,
            before.results[before.ctx.committed]->0.outcome->Ok_0,
        ),
    ensures
        before.commit_taken().commit_finished(
            before.ctx.committed as usize,
            (CommitOutcome::Committed { outcome }),
            state,
        ).prefix_described(ordered_step(program, apply), initial),
{
    let txid = before.ctx.committed;
    let step = ordered_step(program, apply);
    law_commit_finds_an_output(before);
    law_parallel_equals_sequential(program, found, before, txid, 0);
    let taken = before.commit_taken();
    assert(taken.outcomes == before.outcomes && taken.state == before.state);
    assert(step(txid as usize, taken.state, outcome, state));
    law_commit_keeps_the_prefix(
        step,
        initial,
        taken,
        txid as usize,
        (CommitOutcome::Committed { outcome }),
        state,
    );
}

/// Tuning never changes results: two runs of one block from one state that committed equally many
/// transactions, whether in parallel, sequentially, or first the one and then the other, have equal
/// outcomes and equal states.
pub proof fn law_runs_of_a_block_agree<S, R, V>(
    program: Program<V, R>,
    apply: Apply<S, R>,
    initial: S,
    outcomes: Seq<TxExecutionOutcome>,
    state: S,
    other_outcomes: Seq<TxExecutionOutcome>,
    other_state: S,
)
    requires
        describes(ordered_step(program, apply), 0, initial, outcomes, state),
        describes(ordered_step(program, apply), 0, initial, other_outcomes, other_state),
        outcomes.len() == other_outcomes.len(),
    ensures
        outcomes == other_outcomes,
        state == other_state,
    decreases outcomes.len(),
{
    if outcomes.len() == 0 {
        assert(outcomes =~= other_outcomes);
    } else {
        let step = ordered_step(program, apply);
        let txid = (outcomes.len() - 1) as usize;
        let a = choose|middle: S| #[trigger]
            describes_last(step, txid, middle, outcomes.last(), state) && describes(
                step,
                0,
                initial,
                outcomes.drop_last(),
                middle,
            );
        let b = choose|middle: S| #[trigger]
            describes_last(step, txid, middle, other_outcomes.last(), other_state) && describes(
                step,
                0,
                initial,
                other_outcomes.drop_last(),
                middle,
            );
        law_runs_of_a_block_agree(
            program,
            apply,
            initial,
            outcomes.drop_last(),
            a,
            other_outcomes.drop_last(),
            b,
        );
        assert(outcomes =~= outcomes.drop_last().push(outcomes.last()));
        assert(other_outcomes =~= other_outcomes.drop_last().push(other_outcomes.last()));
    }
}

} // verus!
