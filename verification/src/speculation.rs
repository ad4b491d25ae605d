//! What attempts and validations leave behind, told by statuses, results and the entries of the
//! multi-version memory.

use crate::model::{
    AbortReason, Assignment, DependencyUpdate, ExecutionAttempt, LocationId, MemoryEntry,
    ReadVersion, Task, TransactionStatus, TxVersion,
};
use crate::mv_memory::{latest_before, lemma_last_writer, read_valid, reads_valid, Cells};
use crate::read_set::versions;
use crate::scheduler_view::{attempt_located, highest_read, SchedulerView};
use crate::tx_dependency::TxId;
use crate::tx_set::members;
use vstd::prelude::*;

verus! {

/// The transaction `writer` left something at the location, and no transaction between it and
/// `txid` did.
pub open spec fn writes_last(cells: Cells, location: LocationId, txid: TxId, writer: TxId) -> bool {
    &&& location < cells.len()
    &&& writer < txid
    &&& cells[location as int].contains_key(writer)
    &&& forall|t: TxId| writer < t < txid ==> !(#[trigger] cells[location as int].contains_key(t))
}

/// No transaction before `txid` left anything at the location.
pub open spec fn unwritten_before(cells: Cells, location: LocationId, txid: TxId) -> bool {
    location < cells.len() ==> forall|t: TxId|
        t < txid ==> !(#[trigger] cells[location as int].contains_key(t))
}

/// The latest write before a transaction is the entry of the greatest transaction before it that
/// wrote the location, and there is none exactly if no transaction before it did.
pub proof fn law_latest_write_is_the_closest(cells: Cells, location: LocationId, txid: TxId)
    ensures
        latest_before(cells, location, txid) is None <==> unwritten_before(cells, location, txid),
        latest_before(cells, location, txid) matches Some((writer, entry)) ==> writes_last(
            cells,
            location,
            txid,
            writer,
        ) && entry == cells[location as int][writer],
        forall|writer: TxId| #[trigger]
            writes_last(cells, location, txid, writer) ==> latest_before(cells, location, txid)
                == Some((writer, cells[location as int][writer])),
{
    if location < cells.len() {
        lemma_last_writer(cells[location as int], txid as int);
        assert forall|writer: TxId| #[trigger]
            writes_last(cells, location, txid, writer) implies latest_before(cells, location, txid)
            == Some((writer, cells[location as int][writer])) by {
            crate::mv_memory::lemma_is_last_writer(
                cells[location as int],
                txid as int,
                writer as int,
            );
        }
    }
}

/// A read is valid in exactly two cases: it saw the state before the block, and no earlier
/// transaction wrote the location; or it saw the incarnation whose entry the closest earlier writer
/// has there, and the entry is not expected to change.
pub proof fn law_read_is_valid_if_it_saw_the_closest_write(
    cells: Cells,
    txid: TxId,
    location: LocationId,
    version: ReadVersion,
)
    ensures
        version is Storage ==> (read_valid(cells, txid, location, version) <==> unwritten_before(
            cells,
            location,
            txid,
        )),
        version matches ReadVersion::MvMemory(seen) ==> (read_valid(cells, txid, location, version)
            <==> {
            &&& writes_last(cells, location, txid, seen.txid)
            &&& cells[location as int][seen.txid].incarnation == seen.incarnation
            &&& !cells[location as int][seen.txid].estimate
        }),
{
    law_latest_write_is_the_closest(cells, location, txid);
}

/// Reads are valid together exactly if each of them is.
pub proof fn law_reads_are_valid_one_by_one(
    cells: Cells,
    txid: TxId,
    reads: Map<LocationId, ReadVersion>,
)
    ensures
        reads_valid(cells, txid, reads) <==> forall|location: LocationId| #[trigger]
            reads.contains_key(location) ==> match reads[location] {
                ReadVersion::Storage => unwritten_before(cells, location, txid),
                ReadVersion::MvMemory(seen) => {
                    &&& writes_last(cells, location, txid, seen.txid)
                    &&& cells[location as int][seen.txid].incarnation == seen.incarnation
                    &&& !cells[location as int][seen.txid].estimate
                },
            },
{
    assert forall|location: LocationId| #[trigger] reads.contains_key(location) implies read_valid(
        cells,
        txid,
        location,
        reads[location],
    ) == match reads[location] {
        ReadVersion::Storage => unwritten_before(cells, location, txid),
        ReadVersion::MvMemory(seen) => {
            &&& writes_last(cells, location, txid, seen.txid)
            &&& cells[location as int][seen.txid].incarnation == seen.incarnation
            &&& !cells[location as int][seen.txid].estimate
        },
    } by {
        law_read_is_valid_if_it_saw_the_closest_write(cells, txid, location, reads[location]);
    }
}

/// Some read would now see what `writer` left.
pub open spec fn would_read(
    cells: Cells,
    txid: TxId,
    reads: Map<LocationId, ReadVersion>,
    writer: TxId,
) -> bool {
    exists|location: LocationId| #[trigger]
        reads.contains_key(location) && writes_last(cells, location, txid, writer)
}

/// The dependency of a transaction is the greatest transaction, not below the floor, that one of
/// its reads would now see; there is none exactly if none of its reads would see one.
pub proof fn law_dependency_is_the_greatest_writer(
    cells: Cells,
    txid: TxId,
    reads: Map<LocationId, ReadVersion>,
    floor: int,
    bound: int,
)
    requires
        0 <= floor,
        bound <= txid,
    ensures
        match highest_read(cells, txid, reads, floor, bound) {
            Some(writer) => {
                &&& floor <= writer < bound
                &&& would_read(cells, txid, reads, writer)
                &&& forall|w: TxId| writer < w < bound ==> !(#[trigger] would_read(cells, txid, reads, w))
            },
            None => forall|w: TxId|
                floor <= w < bound ==> !(#[trigger] would_read(cells, txid, reads, w)),
        },
    decreases bound,
{
    if bound > floor && bound > 0 {
        let last = (bound - 1) as usize;
        assert(crate::scheduler_view::reads_from(cells, txid, reads, bound - 1) <==> would_read(
            cells,
            txid,
            reads,
            last,
        )) by {
            if crate::scheduler_view::reads_from(cells, txid, reads, bound - 1) {
                let location = choose|location: LocationId| #[trigger]
                    reads.contains_key(location) && location < cells.len()
                        && crate::mv_memory::last_writer(cells[location as int], txid as int)
                        == bound - 1;
                lemma_last_writer(cells[location as int], txid as int);
                assert(writes_last(cells, location, txid, last));
            }
            if would_read(cells, txid, reads, last) {
                let location = choose|location: LocationId| #[trigger]
                    reads.contains_key(location) && writes_last(cells, location, txid, last);
                crate::mv_memory::lemma_is_last_writer(
                    cells[location as int],
                    txid as int,
                    bound - 1,
                );
            }
        }
        law_dependency_is_the_greatest_writer(cells, txid, reads, floor, bound - 1);
    }
}

/// What `after` holds of `txid` in the memory is what an attempt with the given writes leaves: an
/// entry of its incarnation wherever it wrote, nothing where only the attempt before it wrote, and
/// what was there anywhere else; the entries of all other transactions are as before.
pub open spec fn entries_follow(
    before: Cells,
    after: Cells,
    txid: TxId,
    last_writes: Set<LocationId>,
    writes: Set<LocationId>,
    entry: MemoryEntry,
) -> bool {
    &&& after.len() == before.len()
    &&& forall|l: int, t: TxId|
        0 <= l < before.len() && t != txid ==> {
            &&& #[trigger] after[l].contains_key(t) == before[l].contains_key(t)
            &&& before[l].contains_key(t) ==> after[l][t] == before[l][t]
        }
    &&& forall|l: int|
        #![trigger after[l]]
        0 <= l < before.len() ==> {
            &&& writes.contains(l as usize) ==> after[l].contains_key(txid) && after[l][txid] == entry
            &&& !writes.contains(l as usize) && last_writes.contains(l as usize)
                ==> !after[l].contains_key(txid)
            &&& !writes.contains(l as usize) && !last_writes.contains(l as usize) ==> {
                &&& after[l].contains_key(txid) == before[l].contains_key(txid)
                &&& before[l].contains_key(txid) ==> after[l][txid] == before[l][txid]
            }
        }
}

/// What the last finished incarnation of a transaction wrote.
pub open spec fn last_writes<S, R, E>(view: SchedulerView<S, R, E>, txid: int) -> Set<LocationId> {
    match view.results[txid] {
        Some(result) => result.writes,
        None => Set::empty(),
    }
}

/// Validation was rolled back to `index`: a cursor beyond it is there now, the roll-back has a
/// timestamp of its own that is later than all others, and a cursor that was not beyond it stays.
pub open spec fn rolled_back<S, R, E>(
    before: SchedulerView<S, R, E>,
    after: SchedulerView<S, R, E>,
    index: int,
) -> bool {
    if before.ctx.validation > index {
        &&& after.ctx.validation == index
        &&& after.ctx.clock == before.ctx.clock + 1
        &&& after.ctx.lower.len() == before.ctx.lower.len()
        &&& after.ctx.lower[index] == before.ctx.clock
        &&& forall|t: int|
            0 <= t < before.ctx.lower.len() && t != index ==> #[trigger] after.ctx.lower[t]
                == before.ctx.lower[t]
        &&& after.ctx.resets == before.ctx.resets.plus(1)
    } else {
        &&& after.ctx.validation == before.ctx.validation
        &&& after.ctx.clock == before.ctx.clock
        &&& after.ctx.lower == before.ctx.lower
        &&& after.ctx.resets == before.ctx.resets
    }
}

/// An attempt without conflict is kept: its reads, writes and output are the result of the
/// transaction, and its writes stand in the memory. Where it wrote a location that the attempt
/// before it had not written, or where the worker goes on to another transaction, validation is
/// rolled back to it; otherwise the worker validates it. Nothing of another transaction changes,
/// but for the one that the worker goes on with.
pub proof fn law_clean_attempt_is_kept<S, R, E>(
    before: SchedulerView<S, R, E>,
    version: TxVersion,
    commit_idx: usize,
    attempt: ExecutionAttempt<R, E>,
    next: Option<TxId>,
)
    requires
        version.txid < before.states.len() <= usize::MAX,
        before.results.len() == before.states.len(),
        before.ctx.lower.len() == before.states.len(),
        0 <= before.ctx.validation <= before.states.len(),
        0 <= before.ctx.clock < usize::MAX,
        before.memory.cells.len() <= usize::MAX,
        before.states[version.txid as int].status == TransactionStatus::Executing,
        before.states[version.txid as int].incarnation == version.incarnation,
        attempt matches ExecutionAttempt::Done { read_accurate_origin, read_estimate, .. }
            && read_accurate_origin && !read_estimate,
        next matches Some(other) ==> other < before.states.len() && other != version.txid,
    ensures
        ({
            let txid = version.txid as int;
            let after = before.settled(version, commit_idx, attempt, next);
            let assignment = before.assignment_after(version, commit_idx, attempt, next);
            let reads = versions(attempt->read_set);
            let writes = members(attempt->write_set);
            let repeats = before.results[txid] is Some && writes.subset_of(last_writes(before, txid));
            &&& before.update_after(version, attempt) == DependencyUpdate::Release(version.txid)
            &&& after.results.len() == before.results.len()
            &&& after.results[txid] is Some
            &&& after.results[txid]->0.reads == reads
            &&& after.results[txid]->0.writes == writes
            &&& after.results[txid]->0.outcome == Ok::<
                R,
                revm_context::result::EVMError<E>,
            >(attempt->output)
            &&& forall|t: int|
                0 <= t < before.results.len() && t != txid ==> #[trigger] after.results[t]
                    == before.results[t]
            &&& entries_follow(
                before.memory.cells,
                after.memory.cells,
                version.txid,
                last_writes(before, txid),
                writes,
                MemoryEntry { incarnation: version.incarnation, estimate: false },
            )
            &&& after.states[txid].incarnation == version.incarnation
            &&& after.states[txid].dependency == before.states[txid].dependency
            &&& after.states[txid].status == if next is None && repeats {
                TransactionStatus::Validating
            } else {
                TransactionStatus::Executed
            }
            &&& forall|t: int|
                0 <= t < before.states.len() && t != txid && next != Some(t as usize) ==> (
                #[trigger] after.states[t]) == before.states[t]
            &&& if next is None && repeats {
                &&& after.ctx.validation == before.ctx.validation
                &&& after.ctx.lower == before.ctx.lower
                &&& assignment.task == Some(Task::Validation(version))
                &&& assignment.update is None
            } else {
                rolled_back(before, after, txid)
            }
            &&& next is None && !repeats ==> assignment == (Assignment { task: None, update: None })
            &&& next matches Some(other) ==> {
                let status = before.states[other as int].status;
                if status == TransactionStatus::Initial || status == TransactionStatus::Conflict {
                    &&& assignment.update is None
                    &&& assignment.task matches Some(Task::Execution(started)) && started.txid
                        == other
                    &&& after.states[other as int].status == TransactionStatus::Executing
                } else {
                    &&& assignment.task is None
                    &&& assignment.update == Some(DependencyUpdate::Skip(other))
                    &&& after.states[other as int] == before.states[other as int]
                }
            }
            &&& after.control == before.control
            &&& after.ctx.finality == before.ctx.finality
            &&& after.ctx.committed == before.ctx.committed
            &&& after.ctx.unconfirmed == before.ctx.unconfirmed
            &&& after.ctx.frontier == if before.ctx.frontier > txid {
                before.ctx.frontier
            } else {
                txid + 1
            }
            &&& after.memory.ids == before.memory.ids
            &&& after.outcomes == before.outcomes
            &&& after.state == before.state
            &&& after.finality_lower == before.finality_lower
        }),
{
    let txid = version.txid as int;
    let after = before.settled(version, commit_idx, attempt, next);
    lemma_entries(before, version, attempt);
    assert(after.memory.cells == before.cells_after(version, attempt));
}

/// The entries that a finished attempt leaves in the memory.
proof fn lemma_entries<S, R, E>(
    before: SchedulerView<S, R, E>,
    version: TxVersion,
    attempt: ExecutionAttempt<R, E>,
)
    requires
        version.txid < before.results.len(),
        before.memory.cells.len() <= usize::MAX,
        attempt is Done,
    ensures
        entries_follow(
            before.memory.cells,
            before.cells_after(version, attempt),
            version.txid,
            last_writes(before, version.txid as int),
            members(attempt->write_set),
            MemoryEntry {
                incarnation: version.incarnation,
                estimate: !attempt->read_accurate_origin || attempt->read_estimate,
            },
        ),
{
    let cells = before.memory.cells;
    let after = before.cells_after(version, attempt);
    assert forall|l: int, t: TxId| 0 <= l < cells.len() && t != version.txid implies {
        &&& #[trigger] after[l].contains_key(t) == cells[l].contains_key(t)
        &&& cells[l].contains_key(t) ==> after[l][t] == cells[l][t]
    } by {}
}

/// An attempt that read past an uncommitted transaction where it must not, or that read something
/// expected to change, has to be repeated: its writes stand in the memory as expected to change,
/// validation is rolled back to the transaction behind it, and the worker has no task. It waits for
/// everything before it in the one case, and in the other for the greatest transaction that is not
/// final and that it read from.
pub proof fn law_conflicting_attempt_is_repeated<S, R, E>(
    before: SchedulerView<S, R, E>,
    version: TxVersion,
    commit_idx: usize,
    attempt: ExecutionAttempt<R, E>,
    next: Option<TxId>,
)
    requires
        version.txid < before.states.len() <= usize::MAX,
        before.results.len() == before.states.len(),
        before.ctx.lower.len() == before.states.len(),
        0 <= before.ctx.finality,
        0 <= before.ctx.validation <= before.states.len(),
        0 <= before.ctx.clock < usize::MAX,
        before.memory.cells.len() <= usize::MAX,
        before.states[version.txid as int].status == TransactionStatus::Executing,
        before.states[version.txid as int].incarnation == version.incarnation,
        attempt matches ExecutionAttempt::Done { read_accurate_origin, read_estimate, .. } && (
        !read_accurate_origin || read_estimate),
    ensures
        ({
            let txid = version.txid as int;
            let after = before.settled(version, commit_idx, attempt, next);
            let reads = versions(attempt->read_set);
            let writes = members(attempt->write_set);
            &&& before.assignment_after(version, commit_idx, attempt, next) == (Assignment {
                task: None,
                update: None,
            })
            &&& match before.update_after(version, attempt) {
                DependencyUpdate::KeyTx(waiting) => waiting == txid
                    && !attempt->read_accurate_origin,
                DependencyUpdate::Add(waiting, dependency) => {
                    &&& waiting == txid
                    &&& attempt->read_accurate_origin
                    &&& match dependency {
                        Some(writer) => {
                            &&& before.ctx.finality <= writer < txid
                            &&& would_read(after.memory.cells, version.txid, reads, writer)
                            &&& forall|w: TxId|
                                writer < w < txid ==> !(#[trigger] would_read(
                                    after.memory.cells,
                                    version.txid,
                                    reads,
                                    w,
                                ))
                        },
                        None => forall|w: TxId|
                            before.ctx.finality <= w < txid ==> !(#[trigger] would_read(
                                after.memory.cells,
                                version.txid,
                                reads,
                                w,
                            )),
                    }
                },
                _ => false,
            }
            &&& after.results[txid] is Some
            &&& after.results[txid]->0.reads == reads
            &&& after.results[txid]->0.writes == writes
            &&& after.results[txid]->0.outcome == Ok::<
                R,
                revm_context::result::EVMError<E>,
            >(attempt->output)
            &&& forall|t: int|
                0 <= t < before.results.len() && t != txid ==> #[trigger] after.results[t]
                    == before.results[t]
            &&& entries_follow(
                before.memory.cells,
                after.memory.cells,
                version.txid,
                last_writes(before, txid),
                writes,
                MemoryEntry { incarnation: version.incarnation, estimate: true },
            )
            &&& after.states[txid].status == TransactionStatus::Conflict
            &&& after.states[txid].incarnation == version.incarnation
            &&& forall|t: int|
                0 <= t < before.states.len() && t != txid ==> (#[trigger] after.states[t])
                    == before.states[t]
            &&& rolled_back(before, after, txid + 1)
            &&& after.ctx.frontier == if before.ctx.frontier > txid {
                before.ctx.frontier
            } else {
                txid + 1
            }
            &&& after.memory.ids == before.memory.ids
            &&& after.control == before.control
            &&& after.ctx.finality == before.ctx.finality
            &&& after.ctx.committed == before.ctx.committed
            &&& after.ctx.unconfirmed == before.ctx.unconfirmed
            &&& after.outcomes == before.outcomes
            &&& after.state == before.state
            &&& after.metrics.conflict_cnt == before.metrics.conflict_cnt.plus(1)
        }),
{
    let after = before.settled(version, commit_idx, attempt, next);
    lemma_entries(before, version, attempt);
    assert(after.memory.cells == before.cells_after(version, attempt));
    law_dependency_is_the_greatest_writer(
        after.memory.cells,
        version.txid,
        versions(attempt->read_set),
        before.ctx.finality,
        version.txid as int,
    );
}

/// A failed attempt has to be repeated: its error is the result of the transaction, what the
/// attempt before it wrote is expected to change, and it waits for everything before it. Only where
/// everything before it is committed does it stop the run: for sequential execution if the
/// transaction is invalid, and as a fatal error of this transaction if the EVM failed otherwise.
pub proof fn law_failed_attempt_stops_only_the_committed_run<S, R, E>(
    before: SchedulerView<S, R, E>,
    version: TxVersion,
    commit_idx: usize,
    attempt: ExecutionAttempt<R, E>,
    next: Option<TxId>,
)
    requires
        version.txid < before.states.len() <= usize::MAX,
        before.results.len() == before.states.len(),
        before.ctx.lower.len() == before.states.len(),
        0 <= before.ctx.validation <= before.states.len(),
        0 <= before.ctx.clock < usize::MAX,
        before.memory.cells.len() <= usize::MAX,
        before.states[version.txid as int].status == TransactionStatus::Executing,
        before.states[version.txid as int].incarnation == version.incarnation,
        attempt is Failed,
    ensures
        ({
            let txid = version.txid as int;
            let after = before.settled(version, commit_idx, attempt, next);
            &&& before.assignment_after(version, commit_idx, attempt, next) == (Assignment {
                task: None,
                update: None,
            })
            &&& before.update_after(version, attempt) == DependencyUpdate::KeyTx(version.txid)
            &&& after.results[txid] is Some
            &&& after.results[txid]->0.outcome == Err::<
                R,
                revm_context::result::EVMError<E>,
            >(attempt->error)
            &&& after.results[txid]->0.writes == last_writes(before, txid)
            &&& after.results[txid]->0.reads == Map::<LocationId, ReadVersion>::empty()
            &&& forall|t: int|
                0 <= t < before.results.len() && t != txid ==> #[trigger] after.results[t]
                    == before.results[t]
            &&& turned_uncertain(
                before.memory.cells,
                after.memory.cells,
                version.txid,
                last_writes(before, txid),
            )
            &&& after.states[txid].status == TransactionStatus::Conflict
            &&& after.states[txid].incarnation == version.incarnation
            &&& forall|t: int|
                0 <= t < before.states.len() && t != txid ==> (#[trigger] after.states[t])
                    == before.states[t]
            &&& rolled_back(before, after, txid + 1)
            &&& after.ctx.frontier == if before.ctx.frontier > txid {
                before.ctx.frontier
            } else {
                txid + 1
            }
            &&& after.memory.ids == before.memory.ids
            &&& commit_idx != txid ==> after.control == before.control
            &&& commit_idx == txid ==> {
                &&& after.control.aborted
                &&& before.control.reason is Some ==> after.control.reason == before.control.reason
                &&& before.control.reason is None ==> after.control.reason == Some(
                    if attempt->error is Transaction {
                        AbortReason::FallbackSequential
                    } else {
                        AbortReason::<E>::FatalEvmError(version.txid)
                    },
                )
            }
            &&& after.ctx.finality == before.ctx.finality
            &&& after.ctx.committed == before.ctx.committed
            &&& after.outcomes == before.outcomes
            &&& after.state == before.state
            &&& after.metrics.conflict_cnt == before.metrics.conflict_cnt.plus(1)
        }),
{
    let after = before.settled(version, commit_idx, attempt, next);
    assert(after.memory.cells == before.cells_after(version, attempt));
}

/// What a transaction left at the given locations is expected to change in `after`; every other
/// entry is as before.
pub open spec fn turned_uncertain(
    before: Cells,
    after: Cells,
    txid: TxId,
    writes: Set<LocationId>,
) -> bool {
    &&& after.len() == before.len()
    &&& forall|l: int, t: TxId|
        0 <= l < before.len() ==> {
            &&& #[trigger] after[l].contains_key(t) == before[l].contains_key(t)
            &&& before[l].contains_key(t) ==> after[l][t].incarnation == before[l][t].incarnation
            &&& before[l].contains_key(t) ==> after[l][t].estimate == (before[l][t].estimate || (t
                == txid && writes.contains(l as usize)))
        }
}

/// A validation confirms the transaction exactly if all of its reads are still valid: it is then
/// validated as of the timestamp at which the validation began. If one is not, the transaction has
/// to be executed again, its writes are expected to change, and validation is rolled back to the
/// transaction behind it. Either way the greatest transaction that it reads from is remembered, and
/// nothing of another transaction changes.
pub proof fn law_validation_confirms_valid_reads<S, R, E>(
    before: SchedulerView<S, R, E>,
    txid: TxId,
)
    requires
        txid < before.states.len() <= usize::MAX,
        before.results.len() == before.states.len(),
        before.ctx.lower.len() == before.states.len(),
        before.ctx.unconfirmed.len() == before.states.len(),
        0 <= before.ctx.validation <= before.states.len(),
        0 <= before.ctx.clock < usize::MAX - 1,
        before.memory.cells.len() <= usize::MAX,
        before.results[txid as int] is Some,
    ensures
        ({
            let after = before.validated(txid);
            let result = before.results[txid as int]->0;
            let valid = forall|location: LocationId| #[trigger]
                result.reads.contains_key(location) ==> match result.reads[location] {
                    ReadVersion::Storage => unwritten_before(before.memory.cells, location, txid),
                    ReadVersion::MvMemory(seen) => {
                        &&& writes_last(before.memory.cells, location, txid, seen.txid)
                        &&& before.memory.cells[location as int][seen.txid].incarnation
                            == seen.incarnation
                        &&& !before.memory.cells[location as int][seen.txid].estimate
                    },
                };
            &&& before.validates(txid) <==> valid
            &&& valid ==> {
                &&& after.states[txid as int].status == TransactionStatus::Unconfirmed
                &&& after.ctx.unconfirmed[txid as int] == before.ctx.clock
                &&& after.ctx.validation == before.ctx.validation
                &&& after.ctx.lower == before.ctx.lower
                &&& after.ctx.clock == before.ctx.clock + 1
                &&& after.memory == before.memory
            }
            &&& !valid ==> {
                &&& after.states[txid as int].status == TransactionStatus::Conflict
                &&& after.ctx.unconfirmed == before.ctx.unconfirmed
                &&& turned_uncertain(
                    before.memory.cells,
                    after.memory.cells,
                    txid,
                    result.writes,
                )
                &&& if before.ctx.validation > txid + 1 {
                    &&& after.ctx.validation == txid + 1
                    &&& after.ctx.lower == before.ctx.lower.update(
                        txid + 1,
                        (before.ctx.clock + 1) as usize,
                    )
                    &&& after.ctx.resets == before.ctx.resets.plus(1)
                    &&& after.ctx.clock == before.ctx.clock + 2
                } else {
                    &&& after.ctx.validation == before.ctx.validation
                    &&& after.ctx.lower == before.ctx.lower
                }
                &&& before.conflict_update(txid) matches DependencyUpdate::Add(waiting, dependency)
                    && waiting == txid && dependency == match after.states[txid as int].dependency {
                    Some(writer) if writer >= before.ctx.finality => Some(writer),
                    _ => None,
                }
            }
            &&& after.states[txid as int].incarnation == before.states[txid as int].incarnation
            &&& match after.states[txid as int].dependency {
                Some(writer) => {
                    &&& writer < txid
                    &&& would_read(before.memory.cells, txid, result.reads, writer)
                    &&& forall|w: TxId|
                        writer < w < txid ==> !(#[trigger] would_read(
                            before.memory.cells,
                            txid,
                            result.reads,
                            w,
                        ))
                },
                None => forall|w: TxId|
                    w < txid ==> !(#[trigger] would_read(
                        before.memory.cells,
                        txid,
                        result.reads,
                        w,
                    )),
            }
            &&& forall|t: int|
                0 <= t < before.states.len() && t != txid ==> #[trigger] after.states[t]
                    == before.states[t]
            &&& forall|t: int|
                0 <= t < before.states.len() && t != txid ==> #[trigger] after.ctx.unconfirmed[t]
                    == before.ctx.unconfirmed[t]
            &&& after.results == before.results
            &&& after.outcomes == before.outcomes
            &&& after.state == before.state
            &&& after.ctx.finality == before.ctx.finality
            &&& after.ctx.committed == before.ctx.committed
            &&& after.control.aborted == before.control.aborted
            &&& after.control.reason == before.control.reason
            &&& after.control.interrupted == before.control.interrupted
            &&& after.control.commit_wait == before.control.commit_wait
            &&& after.control == if txid == before.ctx.finality {
                before.control.finality_notified()
            } else {
                before.control
            }
            &&& after.metrics.validation_cnt == before.metrics.validation_cnt.plus(1)
        }),
{
    let result = before.results[txid as int]->0;
    law_reads_are_valid_one_by_one(before.memory.cells, txid, result.reads);
    law_dependency_is_the_greatest_writer(
        before.memory.cells,
        txid,
        result.reads,
        0,
        txid as int,
    );
    assert(before.ctx.clock as usize == before.ctx.clock);
}

/// How conflicts are counted: each once, and once by its cause, which is a read past an uncommitted
/// transaction, a read of something expected to change, an error of the EVM, or a validation that
/// found another version. An attempt or a validation without conflict counts none.
pub proof fn law_conflicts_are_counted_by_cause<S, R, E>(
    before: SchedulerView<S, R, E>,
    attempt: ExecutionAttempt<R, E>,
    txid: TxId,
)
    ensures
        ({
            let old_metrics = before.metrics;
            let tried = before.metrics_after(attempt);
            let validated = before.validated(txid).metrics;
            let past = attempt is Done && !attempt->read_accurate_origin;
            let estimate = attempt is Done && attempt->read_accurate_origin
                && attempt->read_estimate;
            let error = attempt is Failed;
            let conflict = past || estimate || error;
            let plus_if = |counter: crate::atomic::RelaxedUsize, counts: bool|
                if counts {
                    counter.plus(1)
                } else {
                    counter
                };
            &&& tried.conflict_cnt == plus_if(old_metrics.conflict_cnt, conflict)
            &&& tried.conflict_by_miner == plus_if(old_metrics.conflict_by_miner, past)
            &&& tried.conflict_by_estimate == plus_if(old_metrics.conflict_by_estimate, estimate)
            &&& tried.conflict_by_error == plus_if(old_metrics.conflict_by_error, error)
            &&& tried.conflict_by_version == old_metrics.conflict_by_version
            &&& tried.validation_cnt == old_metrics.validation_cnt
            &&& validated.validation_cnt == old_metrics.validation_cnt.plus(1)
            &&& validated.conflict_cnt == plus_if(
                old_metrics.conflict_cnt,
                !before.validates(txid),
            )
            &&& validated.conflict_by_version == plus_if(
                old_metrics.conflict_by_version,
                !before.validates(txid),
            )
            &&& validated.conflict_by_miner == old_metrics.conflict_by_miner
            &&& validated.conflict_by_estimate == old_metrics.conflict_by_estimate
            &&& validated.conflict_by_error == old_metrics.conflict_by_error
        }),
{
}

/// An attempt is located exactly if every location that it wrote has a number below the count of
/// known ones; one that failed wrote none.
pub proof fn law_located_attempts_write_known_locations<R, E>(
    attempt: ExecutionAttempt<R, E>,
    locations: nat,
)
    ensures
        attempt is Failed ==> attempt_located(attempt, locations),
        attempt is Done ==> (attempt_located(attempt, locations) <==> forall|l: LocationId|
            #[trigger] members(attempt->write_set).contains(l) ==> l < locations),
{
}

/// The transaction that another one is made to wait for is the greatest one before it that is not
/// final and that one of the given reads would now see; there is none exactly if no read would see
/// such a one.
pub proof fn law_dependency_is_not_final<S, R, E>(
    view: SchedulerView<S, R, E>,
    txid: TxId,
    reads: Map<LocationId, ReadVersion>,
)
    requires
        0 <= view.ctx.finality,
    ensures
        match view.dependent_tx(txid, reads) {
            Some(writer) => {
                &&& view.ctx.finality <= writer < txid
                &&& would_read(view.memory.cells, txid, reads, writer)
                &&& forall|w: TxId|
                    writer < w < txid ==> !(#[trigger] would_read(
                        view.memory.cells,
                        txid,
                        reads,
                        w,
                    ))
            },
            None => forall|w: TxId|
                view.ctx.finality <= w < txid ==> !(#[trigger] would_read(
                    view.memory.cells,
                    txid,
                    reads,
                    w,
                )),
        },
{
    law_dependency_is_the_greatest_writer(
        view.memory.cells,
        txid,
        reads,
        view.ctx.finality,
        txid as int,
    );
}

/// An incarnation is being executed exactly if its transaction is one of the block that a worker
/// executes, in this incarnation; and there is room for one more step exactly if two more
/// timestamps and one more start can be numbered.
pub proof fn law_steps_have_room<S, R, E>(view: SchedulerView<S, R, E>, version: TxVersion)
    ensures
        view.executing(version) <==> version.txid < view.states.len()
            && view.states[version.txid as int].status == TransactionStatus::Executing
            && view.states[version.txid as int].incarnation == version.incarnation,
        view.headroom() <==> view.ctx.clock + 2 <= usize::MAX && view.starts + 1 <= usize::MAX,
{
}

/// Counting a validation changes nothing but its counter, by one.
pub proof fn law_counted_validation_changes_nothing_else<S, R, E>(view: SchedulerView<S, R, E>)
    ensures
        view.validation_counted().metrics.validation_cnt == view.metrics.validation_cnt.plus(1),
        view.validation_counted() == (SchedulerView {
            metrics: view.validation_counted().metrics,
            ..view
        }),
        view.validation_counted().metrics == (crate::metrics::ExecuteMetricsCollector {
            validation_cnt: view.metrics.validation_cnt.plus(1),
            ..view.metrics
        }),
{
}

} // verus!
