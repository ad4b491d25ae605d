//! Why final results are the results of sequential execution.
//!
//! [`SchedulerView::sound`] is an invariant of every step. It implies that a final transaction
//! has read, at every location, exactly what the latest earlier writer of that location left
//! there; and no later step changes what a final transaction wrote.

use crate::config::GrevmConfig;
use crate::context::ContextView;
use crate::finality::later;
use crate::model::{
    ExecutionAttempt, LocationId, MemoryEntry, ReadVersion, TransactionStatus, TxVersion,
};
use crate::mv_memory::{
    estimated, last_writer, latest_before, lemma_is_last_writer, lemma_last_writer, read_valid,
    reads_valid, recorded, retracted, Cells, MemoryView,
};
use crate::scheduler::initial_view;
use crate::scheduler_view::{
    attempt_conflicts, attempt_located, writes_new_locations, SchedulerView,
};
use crate::tx_dependency::TxId;
use crate::tx_set::members;
use vstd::prelude::*;

verus! {

/// The transaction has a result that stands unless validation finds a conflict.
pub open spec fn stands(status: TransactionStatus) -> bool {
    match status {
        TransactionStatus::Executed => true,
        TransactionStatus::Validating => true,
        TransactionStatus::Unconfirmed => true,
        TransactionStatus::Finality => true,
        _ => false,
    }
}

impl<S, R, E> SchedulerView<S, R, E> {
    /// No roll-back to `txid` or to a transaction before it came after its last validation began.
    pub open spec fn validated_since_rollback(self, txid: int) -> bool {
        forall|r: int| 0 <= r <= txid ==> #[trigger] self.ctx.lower[r] < self.ctx.unconfirmed[txid]
    }

    /// Cursors are ordered, and exactly the transactions before the finality cursor are final.
    pub open spec fn cursors_sound(self) -> bool {
        let n = self.states.len();
        &&& n <= usize::MAX
        &&& self.results.len() == n
        &&& self.ctx.lower.len() == n
        &&& self.ctx.unconfirmed.len() == n
        &&& 0 <= self.ctx.committed <= self.ctx.finality <= self.ctx.validation <= n
        &&& forall|t: int|
            0 <= t < n ==> ((#[trigger] self.states[t]).status == TransactionStatus::Finality <==> t
                < self.ctx.finality)
    }

    /// Timestamps lie in the past, and the finality role knows every roll-back behind it.
    pub open spec fn clock_sound(self) -> bool {
        &&& 0 <= self.ctx.clock <= usize::MAX
        &&& forall|t: int|
            0 <= t < self.states.len() ==> #[trigger] self.ctx.lower[t] < self.ctx.clock
        &&& forall|t: int|
            0 <= t < self.states.len() ==> #[trigger] self.ctx.unconfirmed[t] < self.ctx.clock
        &&& forall|t: int|
            0 <= t < self.ctx.finality ==> #[trigger] self.ctx.lower[t] <= self.finality_lower
    }

    /// The memory holds exactly the writes of the last finished incarnations: firm and of the
    /// current incarnation where the result stands, expected to change where it does not.
    pub open spec fn memory_sound(self) -> bool {
        &&& self.memory.cells.len() <= usize::MAX
        &&& forall|l: int, t: TxId|
            0 <= l < self.memory.cells.len() && (
            #[trigger] self.memory.cells[l].contains_key(t)) ==> {
                let entry = self.memory.cells[l][t];
                &&& t < self.states.len()
                &&& if stands(self.states[t as int].status) {
                    !entry.estimate && entry.incarnation == self.states[t as int].incarnation
                } else {
                    entry.estimate
                }
                &&& t < self.ctx.finality || self.results[t as int] is Some
            }
        &&& forall|l: int, t: TxId|
            0 <= l < self.memory.cells.len() && t < self.states.len() && self.results[t as int]
                is Some ==> (#[trigger] self.memory.cells[l].contains_key(t)
                == self.results[t as int]->0.writes.contains(l as usize))
        &&& forall|t: int, l: LocationId|
            0 <= t < self.results.len() && self.results[t] is Some && (
            #[trigger] self.results[t]->0.writes.contains(l)) ==> l < self.memory.cells.len()
    }

    /// Results that stand are outputs.
    pub open spec fn results_sound(self) -> bool {
        forall|t: int|
            0 <= t < self.states.len() && stands((#[trigger] self.states[t]).status) ==> {
                &&& t < self.ctx.finality || self.results[t] is Some
                &&& self.results[t] is Some ==> self.results[t]->0.outcome is Ok
            }
    }

    /// Confirmed transactions, and final ones whose results are still held, have read what they
    /// would read now.
    pub open spec fn reads_sound(self) -> bool {
        forall|t: int|
            0 <= t < self.states.len() && (#[trigger] self.results[t]) is Some && (t
                < self.ctx.finality || (self.states[t].status == TransactionStatus::Unconfirmed && t
                < self.ctx.validation && self.validated_since_rollback(t))) ==> reads_valid(
                self.memory.cells,
                t as usize,
                self.results[t]->0.reads,
            )
    }

    /// What every step keeps.
    pub open spec fn sound(self) -> bool {
        &&& self.cursors_sound()
        &&& self.clock_sound()
        &&& self.memory_sound()
        &&& self.results_sound()
        &&& self.reads_sound()
    }

    /// Every final transaction that is not committed still has its result.
    pub open spec fn intact(self) -> bool {
        forall|t: int|
            self.ctx.committed <= t < self.ctx.finality ==> (#[trigger] self.results[t]) is Some
    }

    /// `later` agrees with this view on everything that is final: what is final stays final, and
    /// what final transactions wrote stays as it is.
    pub open spec fn keeps_finality(self, later: SchedulerView<S, R, E>) -> bool {
        &&& self.ctx.finality <= later.ctx.finality
        &&& self.memory.cells.len() <= later.memory.cells.len()
        &&& forall|l: int, t: TxId|
            0 <= l < self.memory.cells.len() && t < self.ctx.finality ==> {
                &&& #[trigger] self.memory.cells[l].contains_key(t)
                    == later.memory.cells[l].contains_key(t)
                &&& self.memory.cells[l].contains_key(t) ==> self.memory.cells[l][t]
                    == later.memory.cells[l][t]
            }
    }
}

/// Two memories hold the same writes but for those of `txid`.
pub open spec fn same_but_for(a: Cells, b: Cells, txid: TxId) -> bool {
    &&& a.len() == b.len()
    &&& forall|l: int, t: TxId|
        0 <= l < a.len() && t != txid ==> {
            &&& #[trigger] a[l].contains_key(t) == b[l].contains_key(t)
            &&& a[l].contains_key(t) ==> a[l][t] == b[l][t]
        }
}

/// Recording writes touches no other transaction.
proof fn lemma_recorded(cells: Cells, txid: TxId, writes: Set<LocationId>, entry: MemoryEntry)
    ensures
        same_but_for(cells, recorded(cells, txid, writes, entry), txid),
{
    let after = recorded(cells, txid, writes, entry);
    assert forall|l: int, t: TxId| 0 <= l < cells.len() && t != txid implies {
        &&& #[trigger] cells[l].contains_key(t) == after[l].contains_key(t)
        &&& cells[l].contains_key(t) ==> cells[l][t] == after[l][t]
    } by {
        assert(after[l] == cells[l] || after[l] == cells[l].insert(txid, entry));
    }
}

/// Taking writes back touches no other transaction.
proof fn lemma_retracted(
    cells: Cells,
    txid: TxId,
    old_writes: Set<LocationId>,
    new_writes: Set<LocationId>,
)
    ensures
        same_but_for(cells, retracted(cells, txid, old_writes, new_writes), txid),
{
    let after = retracted(cells, txid, old_writes, new_writes);
    assert forall|l: int, t: TxId| 0 <= l < cells.len() && t != txid implies {
        &&& #[trigger] cells[l].contains_key(t) == after[l].contains_key(t)
        &&& cells[l].contains_key(t) ==> cells[l][t] == after[l][t]
    } by {
        assert(after[l] == cells[l] || after[l] == cells[l].remove(txid));
    }
}

/// Marking writes touches no other transaction.
proof fn lemma_estimated(cells: Cells, txid: TxId, writes: Set<LocationId>)
    ensures
        same_but_for(cells, estimated(cells, txid, writes), txid),
{
    let after = estimated(cells, txid, writes);
    assert forall|l: int, t: TxId| 0 <= l < cells.len() && t != txid implies {
        &&& #[trigger] cells[l].contains_key(t) == after[l].contains_key(t)
        &&& cells[l].contains_key(t) ==> cells[l][t] == after[l][t]
    } by {
        assert(after[l] == cells[l] || after[l] == cells[l].insert(
            txid,
            MemoryEntry { estimate: true, ..cells[l][txid] },
        ));
    }
}

/// Reads see only earlier transactions, so writes of `txid` do not concern reads at or before it.
proof fn lemma_earlier_reads(
    a: Cells,
    b: Cells,
    txid: TxId,
    reader: TxId,
    reads: Map<LocationId, ReadVersion>,
)
    requires
        same_but_for(a, b, txid),
        reader <= txid,
        reads_valid(a, reader, reads),
    ensures
        reads_valid(b, reader, reads),
{
    assert forall|l: LocationId| #[trigger] reads.contains_key(l) implies read_valid(
        b,
        reader,
        l,
        reads[l],
    ) by {
        assert(read_valid(a, reader, l, reads[l]));
        if l < a.len() {
            let cell = a[l as int];
            lemma_last_writer(cell, reader as int);
            let writer = last_writer(cell, reader as int);
            assert forall|t: TxId| writer < t < reader implies !(
            #[trigger] b[l as int].contains_key(t)) by {
                assert(!cell.contains_key(t));
            }
            if writer >= 0 {
                assert(cell.contains_key(writer as usize));
            }
            lemma_is_last_writer(b[l as int], reader as int, writer);
        }
    }
}

/// Rewriting the same or fewer locations, all of which were expected to change, does not concern
/// later reads that are valid.
proof fn lemma_later_reads(
    a: Cells,
    b: Cells,
    txid: TxId,
    reader: TxId,
    reads: Map<LocationId, ReadVersion>,
)
    requires
        same_but_for(a, b, txid),
        txid < reader,
        forall|l: int|
            0 <= l < a.len() && #[trigger] a[l].contains_key(txid) ==> a[l][txid].estimate,
        forall|l: int|
            0 <= l < a.len() && #[trigger] b[l].contains_key(txid) ==> a[l].contains_key(txid),
        reads_valid(a, reader, reads),
    ensures
        reads_valid(b, reader, reads),
{
    assert forall|l: LocationId| #[trigger] reads.contains_key(l) implies read_valid(
        b,
        reader,
        l,
        reads[l],
    ) by {
        assert(read_valid(a, reader, l, reads[l]));
        if l < a.len() {
            let cell = a[l as int];
            lemma_last_writer(cell, reader as int);
            let writer = last_writer(cell, reader as int);
            assert(writer != txid);
            assert forall|t: TxId| writer < t < reader implies !(
            #[trigger] b[l as int].contains_key(t)) by {
                assert(!cell.contains_key(t));
            }
            if writer >= 0 {
                assert(cell.contains_key(writer as usize));
            }
            lemma_is_last_writer(b[l as int], reader as int, writer);
        }
    }
}

/// A scheduler that has not started is sound.
pub proof fn law_initial_is_sound<S, R, E>(block_size: nat, state: S, config: GrevmConfig)
    requires
        block_size <= usize::MAX,
    ensures
        initial_view::<S, R, E>(block_size, state, config).sound(),
        initial_view::<S, R, E>(block_size, state, config).intact(),
{
}

/// Soundness does not depend on how the run is controlled or counted.
pub proof fn law_control_keeps_soundness<S, R, E>(
    before: SchedulerView<S, R, E>,
    after: SchedulerView<S, R, E>,
)
    requires
        before.sound(),
        after.states == before.states,
        after.results == before.results,
        after.memory.cells == before.memory.cells,
        after.ctx == before.ctx,
        after.finality_lower == before.finality_lower,
    ensures
        after.sound(),
        before.keeps_finality(after),
        before.intact() ==> after.intact(),
{
    assert(after.cursors_sound());
    assert(after.clock_sound());
    assert(after.memory_sound());
    assert(after.results_sound());
    assert(after.reads_sound()) by {
        assert forall|t: int|
            0 <= t < after.states.len() && (#[trigger] after.results[t]) is Some && (t
                < after.ctx.finality || (after.states[t].status == TransactionStatus::Unconfirmed
                && t < after.ctx.validation && after.validated_since_rollback(t))) implies reads_valid(
            after.memory.cells,
            t as usize,
            after.results[t]->0.reads,
        ) by {
            assert(before.results[t] is Some);
            if t >= before.ctx.finality {
                assert(before.validated_since_rollback(t)) by {
                    assert forall|r: int| 0 <= r <= t implies #[trigger] before.ctx.lower[r]
                        < before.ctx.unconfirmed[t] by {
                        assert(after.ctx.lower[r] < after.ctx.unconfirmed[t]);
                    }
                }
            }
        }
    }
}

/// Confirmed reads stay confirmed under fewer obligations: a view with the same memory and
/// results in which every transaction that counts as confirmed already did so before.
proof fn lemma_reads_carry_over<S, R, E>(
    before: SchedulerView<S, R, E>,
    after: SchedulerView<S, R, E>,
    t: int,
)
    requires
        before.reads_sound(),
        0 <= t < before.states.len(),
        before.results[t] is Some,
        t < before.ctx.finality || (before.states[t].status == TransactionStatus::Unconfirmed && t
            < before.ctx.validation),
        after.ctx.lower.len() == before.states.len(),
        t >= before.ctx.finality ==> after.validated_since_rollback(t),
        forall|r: int| 0 <= r <= t ==> #[trigger] after.ctx.lower[r] >= before.ctx.lower[r],
        after.ctx.unconfirmed[t] == before.ctx.unconfirmed[t],
    ensures
        reads_valid(before.memory.cells, t as usize, before.results[t]->0.reads),
{
    if t >= before.ctx.finality {
        assert forall|r: int| 0 <= r <= t implies #[trigger] before.ctx.lower[r]
            < before.ctx.unconfirmed[t] by {
            assert(after.ctx.lower[r] < after.ctx.unconfirmed[t]);
        }
        assert(before.validated_since_rollback(t));
    }
}

/// Starting a transaction keeps soundness.
pub proof fn law_start_keeps_soundness<S, R, E>(before: SchedulerView<S, R, E>, txid: TxId)
    requires
        before.sound(),
        txid < before.states.len(),
    ensures
        before.sent_to(txid).sound(),
        before.keeps_finality(before.sent_to(txid)),
        before.intact() ==> before.sent_to(txid).intact(),
{
    let after = before.sent_to(txid);
    assert(before.states[txid as int] == before.states[txid as int]);
    assert(after.cursors_sound());
    assert(after.clock_sound());
    assert(after.memory_sound()) by {
        assert forall|l: int, t: TxId|
            0 <= l < after.memory.cells.len() && (
            #[trigger] after.memory.cells[l].contains_key(t)) implies {
            let entry = after.memory.cells[l][t];
            &&& t < after.states.len()
            &&& if stands(after.states[t as int].status) {
                !entry.estimate && entry.incarnation == after.states[t as int].incarnation
            } else {
                entry.estimate
            }
            &&& t < after.ctx.finality || after.results[t as int] is Some
        } by {
            assert(before.memory.cells[l].contains_key(t));
        }
    }
    assert(after.results_sound()) by {
        assert forall|t: int|
            0 <= t < after.states.len() && stands((#[trigger] after.states[t]).status) implies {
            &&& t < after.ctx.finality || after.results[t] is Some
            &&& after.results[t] is Some ==> after.results[t]->0.outcome is Ok
        } by {
            assert(stands(before.states[t].status));
        }
    }
    assert(after.reads_sound()) by {
        assert forall|t: int|
            0 <= t < after.states.len() && (#[trigger] after.results[t]) is Some && (t
                < after.ctx.finality || (after.states[t].status == TransactionStatus::Unconfirmed
                && t < after.ctx.validation && after.validated_since_rollback(t))) implies reads_valid(
            after.memory.cells,
            t as usize,
            after.results[t]->0.reads,
        ) by {
            lemma_reads_carry_over(before, after, t);
        }
    }
}

/// Claiming a transaction for validation keeps soundness.
pub proof fn law_claim_keeps_soundness<S, R, E>(
    before: SchedulerView<S, R, E>,
    execution_idx: usize,
)
    requires
        before.sound(),
    ensures
        before.validation_claimed(execution_idx).sound(),
        before.keeps_finality(before.validation_claimed(execution_idx)),
        before.intact() ==> before.validation_claimed(execution_idx).intact(),
{
    let after = before.validation_claimed(execution_idx);
    let claimed = before.ctx.validation;
    if before.claims_validation(execution_idx) {
        assert(before.states[claimed] == before.states[claimed]);
        assert(after.cursors_sound());
        assert(after.clock_sound());
        assert(after.memory_sound()) by {
            assert forall|l: int, t: TxId|
                0 <= l < after.memory.cells.len() && (
                #[trigger] after.memory.cells[l].contains_key(t)) implies {
                let entry = after.memory.cells[l][t];
                &&& t < after.states.len()
                &&& if stands(after.states[t as int].status) {
                    !entry.estimate && entry.incarnation == after.states[t as int].incarnation
                } else {
                    entry.estimate
                }
                &&& t < after.ctx.finality || after.results[t as int] is Some
            } by {
                assert(before.memory.cells[l].contains_key(t));
            }
        }
        assert(after.results_sound()) by {
            assert forall|t: int|
                0 <= t < after.states.len() && stands((#[trigger] after.states[t]).status) implies {
                &&& t < after.ctx.finality || after.results[t] is Some
                &&& after.results[t] is Some ==> after.results[t]->0.outcome is Ok
            } by {
                assert(stands(before.states[t].status));
            }
        }
        assert(after.reads_sound()) by {
            assert forall|t: int|
                0 <= t < after.states.len() && (#[trigger] after.results[t]) is Some && (t
                    < after.ctx.finality || (after.states[t].status
                    == TransactionStatus::Unconfirmed && t < after.ctx.validation
                    && after.validated_since_rollback(t))) implies reads_valid(
                after.memory.cells,
                t as usize,
                after.results[t]->0.reads,
            ) by {
                lemma_reads_carry_over(before, after, t);
            }
        }
    }
}

/// Rolling validation back ends the confirmation of everything from there on.
proof fn lemma_rewind<S, R, E>(before: SchedulerView<S, R, E>, index: int, t: int)
    requires
        before.cursors_sound(),
        before.clock_sound(),
        0 <= index <= t < before.states.len(),
    ensures
        !(t < before.rewound(index).ctx.validation && before.rewound(
            index,
        ).validated_since_rollback(t)),
{
    let after = before.rewound(index);
    if before.ctx.validation > index {
        assert(after.ctx.lower[index] == before.ctx.clock);
        assert(before.ctx.unconfirmed[t] < before.ctx.clock);
        if after.validated_since_rollback(t) {
            assert(after.ctx.lower[index] < after.ctx.unconfirmed[t]);
        }
    }
}

/// A validation keeps soundness: a confirmed transaction has read what it would read now, and a
/// conflicting one rolls back everything behind it.
pub proof fn law_validation_keeps_soundness<S, R, E>(before: SchedulerView<S, R, E>, txid: TxId)
    requires
        before.sound(),
        txid < before.states.len(),
        before.states[txid as int].status == TransactionStatus::Validating,
        before.ctx.clock <= usize::MAX - 2,
    ensures
        before.validated(txid).sound(),
        before.keeps_finality(before.validated(txid)),
        before.intact() ==> before.validated(txid).intact(),
{
    let after = before.validated(txid);
    let cells = before.memory.cells;
    let index = txid as int;
    assert(stands(before.states[index].status));
    assert(before.results[index] is Some);
    if before.validates(txid) {
        assert(after.cursors_sound());
        assert(after.clock_sound());
        assert(after.memory_sound()) by {
            assert forall|l: int, t: TxId|
                0 <= l < after.memory.cells.len() && (
                #[trigger] after.memory.cells[l].contains_key(t)) implies {
                let entry = after.memory.cells[l][t];
                &&& t < after.states.len()
                &&& if stands(after.states[t as int].status) {
                    !entry.estimate && entry.incarnation == after.states[t as int].incarnation
                } else {
                    entry.estimate
                }
                &&& t < after.ctx.finality || after.results[t as int] is Some
            } by {
                assert(before.memory.cells[l].contains_key(t));
            }
        }
        assert(after.results_sound()) by {
            assert forall|t: int|
                0 <= t < after.states.len() && stands((#[trigger] after.states[t]).status) implies {
                &&& t < after.ctx.finality || after.results[t] is Some
                &&& after.results[t] is Some ==> after.results[t]->0.outcome is Ok
            } by {
                assert(stands(before.states[t].status));
            }
        }
        assert(after.reads_sound()) by {
            assert forall|t: int|
                0 <= t < after.states.len() && (#[trigger] after.results[t]) is Some && (t
                    < after.ctx.finality || (after.states[t].status
                    == TransactionStatus::Unconfirmed && t < after.ctx.validation
                    && after.validated_since_rollback(t))) implies reads_valid(
                after.memory.cells,
                t as usize,
                after.results[t]->0.reads,
            ) by {
                if t != index {
                    lemma_reads_carry_over(before, after, t);
                }
            }
        }
    } else {
        let writes = before.results[index]->0.writes;
        let ticked = SchedulerView { ctx: before.ctx.ticked(), ..before };
        lemma_estimated(cells, txid, writes);
        assert(after.ctx == ticked.rewound(index + 1).ctx);
        assert(after.memory.cells == estimated(cells, txid, writes));
        assert(after.cursors_sound()) by {
            assert(before.states[index] == before.states[index]);
        }
        assert(after.clock_sound()) by {
            assert forall|t: int| 0 <= t < after.states.len() implies #[trigger] after.ctx.lower[t]
                < after.ctx.clock by {
                assert(before.ctx.lower[t] < before.ctx.clock);
            }
            assert forall|t: int| 0 <= t < after.states.len() implies
                #[trigger] after.ctx.unconfirmed[t] < after.ctx.clock by {
                assert(before.ctx.unconfirmed[t] < before.ctx.clock);
            }
            assert forall|t: int| 0 <= t < after.ctx.finality implies #[trigger] after.ctx.lower[t]
                <= after.finality_lower by {
                assert(before.ctx.lower[t] <= before.finality_lower);
            }
        }
        assert(after.memory_sound()) by {
            assert forall|l: int, t: TxId|
                0 <= l < after.memory.cells.len() && (
                #[trigger] after.memory.cells[l].contains_key(t)) implies {
                let entry = after.memory.cells[l][t];
                &&& t < after.states.len()
                &&& if stands(after.states[t as int].status) {
                    !entry.estimate && entry.incarnation == after.states[t as int].incarnation
                } else {
                    entry.estimate
                }
                &&& t < after.ctx.finality || after.results[t as int] is Some
            } by {
                assert(before.memory.cells[l].contains_key(t));
            }
            assert forall|l: int, t: TxId|
                0 <= l < after.memory.cells.len() && t < after.states.len()
                    && after.results[t as int] is Some implies (
            #[trigger] after.memory.cells[l].contains_key(t)
                == after.results[t as int]->0.writes.contains(l as usize)) by {
                assert(before.memory.cells[l].contains_key(t)
                    == before.results[t as int]->0.writes.contains(l as usize));
            }
        }
        assert(after.results_sound()) by {
            assert forall|t: int|
                0 <= t < after.states.len() && stands((#[trigger] after.states[t]).status) implies {
                &&& t < after.ctx.finality || after.results[t] is Some
                &&& after.results[t] is Some ==> after.results[t]->0.outcome is Ok
            } by {
                assert(stands(before.states[t].status));
            }
        }
        assert(after.reads_sound()) by {
            assert forall|t: int|
                0 <= t < after.states.len() && (#[trigger] after.results[t]) is Some && (t
                    < after.ctx.finality || (after.states[t].status
                    == TransactionStatus::Unconfirmed && t < after.ctx.validation
                    && after.validated_since_rollback(t))) implies reads_valid(
                after.memory.cells,
                t as usize,
                after.results[t]->0.reads,
            ) by {
                if t > index {
                    lemma_rewind(ticked, index + 1, t);
                    assert(after.validated_since_rollback(t) ==> ticked.rewound(
                        index + 1,
                    ).validated_since_rollback(t)) by {
                        if after.validated_since_rollback(t) {
                            assert forall|r: int| 0 <= r <= t implies #[trigger] ticked.rewound(
                                index + 1,
                            ).ctx.lower[r] < ticked.rewound(index + 1).ctx.unconfirmed[t] by {
                                assert(after.ctx.lower[r] < after.ctx.unconfirmed[t]);
                            }
                        }
                    }
                    assert(false);
                } else {
                    lemma_reads_carry_over(before, after, t);
                    lemma_earlier_reads(
                        cells,
                        after.memory.cells,
                        txid,
                        t as usize,
                        before.results[t]->0.reads,
                    );
                }
            }
        }
    }
}

/// Where an attempt leaves entries of its transaction, and what they say.
pub(crate) proof fn lemma_attempt_cells<S, R, E>(
    before: SchedulerView<S, R, E>,
    version: TxVersion,
    attempt: ExecutionAttempt<R, E>,
)
    requires
        before.sound(),
        before.executing(version),
        attempt_located(attempt, before.memory.cells.len()),
    ensures
        same_but_for(before.memory.cells, before.cells_after(version, attempt), version.txid),
        forall|l: int|
            0 <= l < before.memory.cells.len() ==> ((#[trigger] before.cells_after(
                version,
                attempt,
            )[l]).contains_key(version.txid) == before.result_after(
                version,
                attempt,
            ).writes.contains(l as usize)),
        forall|l: int|
            0 <= l < before.memory.cells.len() && (#[trigger] before.cells_after(
                version,
                attempt,
            )[l]).contains_key(version.txid) ==> {
                let entry = before.cells_after(version, attempt)[l][version.txid];
                &&& entry.estimate == attempt_conflicts(attempt)
                &&& attempt is Done ==> entry.incarnation == version.incarnation
            },
{
    let txid = version.txid;
    let cells = before.memory.cells;
    let after = before.cells_after(version, attempt);
    let last = before.results[txid as int];
    assert(!stands(before.states[txid as int].status));
    assert(before.ctx.finality <= txid);
    match attempt {
        ExecutionAttempt::Done { write_set, .. } => {
            let entry = MemoryEntry {
                incarnation: version.incarnation,
                estimate: attempt_conflicts(attempt),
            };
            let writes = members(write_set);
            let written = recorded(cells, txid, writes, entry);
            lemma_recorded(cells, txid, writes, entry);
            if last is Some {
                lemma_retracted(written, txid, last->0.writes, writes);
            }
            assert(same_but_for(cells, after, txid)) by {
                assert forall|l: int, t: TxId| 0 <= l < cells.len() && t != txid implies {
                    &&& #[trigger] cells[l].contains_key(t) == after[l].contains_key(t)
                    &&& cells[l].contains_key(t) ==> cells[l][t] == after[l][t]
                } by {
                    assert(cells[l].contains_key(t) == written[l].contains_key(t));
                }
            }
            assert forall|l: int| 0 <= l < cells.len() implies ((
            #[trigger] after[l]).contains_key(txid) == writes.contains(l as usize)) by {
                assert(cells[l].contains_key(txid) ==> last is Some);
                if last is Some {
                    assert(cells[l].contains_key(txid) == last->0.writes.contains(l as usize));
                }
            }
        },
        ExecutionAttempt::Failed { .. } => {
            if last is Some {
                lemma_estimated(cells, txid, last->0.writes);
            }
            assert forall|l: int| 0 <= l < cells.len() implies ((
            #[trigger] after[l]).contains_key(txid) == before.result_after(
                version,
                attempt,
            ).writes.contains(l as usize)) by {
                assert(cells[l].contains_key(txid) ==> last is Some);
                if last is Some {
                    assert(cells[l].contains_key(txid) == last->0.writes.contains(l as usize));
                }
            }
            assert forall|l: int|
                0 <= l < cells.len() && (#[trigger] after[l]).contains_key(
                    txid,
                ) implies after[l][txid].estimate by {
                assert(cells[l].contains_key(txid));
            }
        },
    }
}

/// Everything but the reads is sound once an attempt is recorded.
pub(crate) proof fn lemma_attempted<S, R, E>(
    before: SchedulerView<S, R, E>,
    version: TxVersion,
    commit_idx: usize,
    attempt: ExecutionAttempt<R, E>,
)
    requires
        before.sound(),
        before.executing(version),
        attempt_located(attempt, before.memory.cells.len()),
    ensures
        before.attempted(version, commit_idx, attempt).cursors_sound(),
        before.attempted(version, commit_idx, attempt).clock_sound(),
        before.attempted(version, commit_idx, attempt).memory_sound(),
        before.attempted(version, commit_idx, attempt).results_sound(),
        before.keeps_finality(before.attempted(version, commit_idx, attempt)),
{
    let after = before.attempted(version, commit_idx, attempt);
    let txid = version.txid;
    let index = txid as int;
    lemma_attempt_cells(before, version, attempt);
    assert(before.ctx.finality <= txid);
    assert(after.cursors_sound());
    assert(after.clock_sound());
    assert(after.memory_sound()) by {
        assert forall|l: int, t: TxId|
            0 <= l < after.memory.cells.len() && (
            #[trigger] after.memory.cells[l].contains_key(t)) implies {
            let entry = after.memory.cells[l][t];
            &&& t < after.states.len()
            &&& if stands(after.states[t as int].status) {
                !entry.estimate && entry.incarnation == after.states[t as int].incarnation
            } else {
                entry.estimate
            }
            &&& t < after.ctx.finality || after.results[t as int] is Some
        } by {
            if t != txid {
                assert(before.memory.cells[l].contains_key(t));
            } else {
                assert(before.cells_after(version, attempt)[l].contains_key(txid));
            }
        }
        assert forall|l: int, t: TxId|
            0 <= l < after.memory.cells.len() && t < after.states.len() && after.results[t as int]
                is Some implies (#[trigger] after.memory.cells[l].contains_key(t)
            == after.results[t as int]->0.writes.contains(l as usize)) by {
            if t != txid {
                assert(before.memory.cells[l].contains_key(t)
                    == before.results[t as int]->0.writes.contains(l as usize));
            } else {
                assert(before.cells_after(version, attempt)[l].contains_key(txid)
                    == before.result_after(version, attempt).writes.contains(l as usize));
            }
        }
    }
    assert(after.results_sound()) by {
        assert forall|t: int|
            0 <= t < after.states.len() && stands((#[trigger] after.states[t]).status) implies {
            &&& t < after.ctx.finality || after.results[t] is Some
            &&& after.results[t] is Some ==> after.results[t]->0.outcome is Ok
        } by {
            if t != index {
                assert(stands(before.states[t].status));
            }
        }
    }
}

/// Rolling back to `index`, at or right behind the attempted transaction, keeps the reads sound.
pub(crate) proof fn lemma_attempt_rolled_back<S, R, E>(
    before: SchedulerView<S, R, E>,
    version: TxVersion,
    commit_idx: usize,
    attempt: ExecutionAttempt<R, E>,
    index: int,
)
    requires
        before.sound(),
        before.executing(version),
        attempt_located(attempt, before.memory.cells.len()),
        before.ctx.clock <= usize::MAX - 2,
        version.txid <= index <= version.txid + 1,
    ensures
        before.attempted(version, commit_idx, attempt).rewound(index).sound(),
        before.keeps_finality(before.attempted(version, commit_idx, attempt).rewound(index)),
        before.intact() ==> before.attempted(version, commit_idx, attempt).rewound(
            index,
        ).intact(),
{
    let attempted = before.attempted(version, commit_idx, attempt);
    let after = attempted.rewound(index);
    let txid = version.txid;
    lemma_attempted(before, version, commit_idx, attempt);
    lemma_attempt_cells(before, version, attempt);
    assert(before.ctx.finality <= txid);
    assert(after.cursors_sound());
    assert(after.clock_sound()) by {
        assert forall|t: int| 0 <= t < after.states.len() implies #[trigger] after.ctx.lower[t]
            < after.ctx.clock by {
            assert(before.ctx.lower[t] < before.ctx.clock);
        }
        assert forall|t: int| 0 <= t < after.states.len() implies
            #[trigger] after.ctx.unconfirmed[t] < after.ctx.clock by {
            assert(before.ctx.unconfirmed[t] < before.ctx.clock);
        }
        assert forall|t: int| 0 <= t < after.ctx.finality implies #[trigger] after.ctx.lower[t]
            <= after.finality_lower by {
            assert(before.ctx.lower[t] <= before.finality_lower);
        }
    }
    assert(after.memory_sound()) by {
        assert(attempted.memory_sound());
    }
    assert(after.results_sound()) by {
        assert(attempted.results_sound());
    }
    assert(after.reads_sound()) by {
        assert forall|t: int|
            0 <= t < after.states.len() && (#[trigger] after.results[t]) is Some && (t
                < after.ctx.finality || (after.states[t].status == TransactionStatus::Unconfirmed
                && t < after.ctx.validation && after.validated_since_rollback(t))) implies reads_valid(
            after.memory.cells,
            t as usize,
            after.results[t]->0.reads,
        ) by {
            if t >= index {
                lemma_rewind(attempted, index, t);
                assert(false);
            }
            assert(t != txid);
            lemma_reads_carry_over(before, after, t);
            lemma_earlier_reads(
                before.memory.cells,
                after.memory.cells,
                txid,
                t as usize,
                before.results[t]->0.reads,
            );
        }
    }
}

/// A repeated attempt without new locations keeps the reads sound without any roll-back.
pub(crate) proof fn lemma_attempt_repeated<S, R, E>(
    before: SchedulerView<S, R, E>,
    version: TxVersion,
    commit_idx: usize,
    attempt: ExecutionAttempt<R, E>,
)
    requires
        before.sound(),
        before.executing(version),
        attempt_located(attempt, before.memory.cells.len()),
        !attempt_conflicts(attempt),
        !writes_new_locations(
            before.results[version.txid as int],
            before.result_after(version, attempt).writes,
        ),
    ensures
        before.attempted(version, commit_idx, attempt).with_status(
            version.txid,
            TransactionStatus::Validating,
        ).sound(),
        before.keeps_finality(
            before.attempted(version, commit_idx, attempt).with_status(
                version.txid,
                TransactionStatus::Validating,
            ),
        ),
        before.intact() ==> before.attempted(version, commit_idx, attempt).with_status(
            version.txid,
            TransactionStatus::Validating,
        ).intact(),
{
    let attempted = before.attempted(version, commit_idx, attempt);
    let after = attempted.with_status(version.txid, TransactionStatus::Validating);
    let txid = version.txid;
    let cells = before.memory.cells;
    lemma_attempted(before, version, commit_idx, attempt);
    lemma_attempt_cells(before, version, attempt);
    assert(before.ctx.finality <= txid);
    assert(after.cursors_sound());
    assert(after.clock_sound());
    assert(after.memory_sound()) by {
        assert forall|l: int, t: TxId|
            0 <= l < after.memory.cells.len() && (
            #[trigger] after.memory.cells[l].contains_key(t)) implies {
            let entry = after.memory.cells[l][t];
            &&& t < after.states.len()
            &&& if stands(after.states[t as int].status) {
                !entry.estimate && entry.incarnation == after.states[t as int].incarnation
            } else {
                entry.estimate
            }
            &&& t < after.ctx.finality || after.results[t as int] is Some
        } by {
            assert(attempted.memory.cells[l].contains_key(t));
        }
    }
    assert(after.results_sound()) by {
        assert forall|t: int|
            0 <= t < after.states.len() && stands((#[trigger] after.states[t]).status) implies {
            &&& t < after.ctx.finality || after.results[t] is Some
            &&& after.results[t] is Some ==> after.results[t]->0.outcome is Ok
        } by {
            assert(stands(attempted.states[t].status));
        }
    }
    assert(after.reads_sound()) by {
        assert forall|t: int|
            0 <= t < after.states.len() && (#[trigger] after.results[t]) is Some && (t
                < after.ctx.finality || (after.states[t].status == TransactionStatus::Unconfirmed
                && t < after.ctx.validation && after.validated_since_rollback(t))) implies reads_valid(
            after.memory.cells,
            t as usize,
            after.results[t]->0.reads,
        ) by {
            assert(t != txid);
            lemma_reads_carry_over(before, after, t);
            let reads = before.results[t]->0.reads;
            if t < txid {
                lemma_earlier_reads(cells, after.memory.cells, txid, t as usize, reads);
            } else {
                assert forall|l: int|
                    0 <= l < cells.len() && #[trigger] cells[l].contains_key(
                        txid,
                    ) implies cells[l][txid].estimate by {
                    assert(!stands(before.states[txid as int].status));
                }
                assert forall|l: int|
                    0 <= l < cells.len() && #[trigger] after.memory.cells[l].contains_key(
                        txid,
                    ) implies cells[l].contains_key(txid) by {
                    assert(before.cells_after(version, attempt)[l].contains_key(txid)
                        == before.result_after(version, attempt).writes.contains(l as usize));
                    assert(cells[l].contains_key(txid)
                        == before.results[txid as int]->0.writes.contains(l as usize));
                }
                lemma_later_reads(cells, after.memory.cells, txid, t as usize, reads);
            }
        }
    }
}

/// Recording an attempt of the incarnation that is being executed keeps soundness, however the
/// dependency graph answers.
pub proof fn law_execution_keeps_soundness<S, R, E>(
    before: SchedulerView<S, R, E>,
    version: TxVersion,
    commit_idx: usize,
    attempt: ExecutionAttempt<R, E>,
    next: Option<TxId>,
)
    requires
        before.sound(),
        before.headroom(),
        before.executing(version),
        attempt_located(attempt, before.memory.cells.len()),
        next matches Some(txid) ==> txid < before.states.len(),
    ensures
        before.settled(version, commit_idx, attempt, next).sound(),
        before.keeps_finality(before.settled(version, commit_idx, attempt, next)),
        before.intact() ==> before.settled(version, commit_idx, attempt, next).intact(),
{
    let txid = version.txid as int;
    if attempt_conflicts(attempt) {
        lemma_attempt_rolled_back(before, version, commit_idx, attempt, txid + 1);
    } else if next is Some {
        lemma_attempt_rolled_back(before, version, commit_idx, attempt, txid);
        let rolled = before.attempted(version, commit_idx, attempt).rewound(txid);
        law_start_keeps_soundness(rolled, next->0);
    } else if writes_new_locations(
        before.results[txid],
        before.result_after(version, attempt).writes,
    ) {
        lemma_attempt_rolled_back(before, version, commit_idx, attempt, txid);
    } else {
        lemma_attempt_repeated(before, version, commit_idx, attempt);
    }
}

/// Making the next candidate final keeps soundness.
pub(crate) proof fn lemma_finalized_next_sound<S, R, E>(before: SchedulerView<S, R, E>)
    requires
        before.sound(),
        before.finality_candidate() is Some,
    ensures
        before.finalized_next().sound(),
        before.keeps_finality(before.finalized_next()),
        before.intact() ==> before.finalized_next().intact(),
{
    let after = before.finalized_next();
    let txid = before.ctx.finality;
    assert(stands(before.states[txid].status));
    assert(before.results[txid] is Some);
    assert(before.validated_since_rollback(txid)) by {
        assert forall|r: int| 0 <= r <= txid implies #[trigger] before.ctx.lower[r]
            < before.ctx.unconfirmed[txid] by {
            if r < txid {
                assert(before.ctx.lower[r] <= before.finality_lower);
            }
        }
    }
    assert(after.cursors_sound());
    assert(after.clock_sound()) by {
        assert forall|t: int| 0 <= t < after.ctx.finality implies #[trigger] after.ctx.lower[t]
            <= after.finality_lower by {
            if t < txid {
                assert(before.ctx.lower[t] <= before.finality_lower);
            }
        }
    }
    assert(after.memory_sound()) by {
        assert forall|l: int, t: TxId|
            0 <= l < after.memory.cells.len() && (
            #[trigger] after.memory.cells[l].contains_key(t)) implies {
            let entry = after.memory.cells[l][t];
            &&& t < after.states.len()
            &&& if stands(after.states[t as int].status) {
                !entry.estimate && entry.incarnation == after.states[t as int].incarnation
            } else {
                entry.estimate
            }
            &&& t < after.ctx.finality || after.results[t as int] is Some
        } by {
            assert(before.memory.cells[l].contains_key(t));
        }
    }
    assert(after.results_sound()) by {
        assert forall|t: int|
            0 <= t < after.states.len() && stands((#[trigger] after.states[t]).status) implies {
            &&& t < after.ctx.finality || after.results[t] is Some
            &&& after.results[t] is Some ==> after.results[t]->0.outcome is Ok
        } by {
            assert(stands(before.states[t].status));
        }
    }
    assert(after.reads_sound()) by {
        assert forall|t: int|
            0 <= t < after.states.len() && (#[trigger] after.results[t]) is Some && (t
                < after.ctx.finality || (after.states[t].status == TransactionStatus::Unconfirmed
                && t < after.ctx.validation && after.validated_since_rollback(t))) implies reads_valid(
            after.memory.cells,
            t as usize,
            after.results[t]->0.reads,
        ) by {
            if t != txid {
                lemma_reads_carry_over(before, after, t);
            } else {
                assert(before.results[t] is Some);
            }
        }
    }
}

/// Keeping what is final is transitive.
proof fn lemma_keeps_finality_chain<S, R, E>(
    a: SchedulerView<S, R, E>,
    b: SchedulerView<S, R, E>,
    c: SchedulerView<S, R, E>,
)
    requires
        a.keeps_finality(b),
        b.keeps_finality(c),
    ensures
        a.keeps_finality(c),
{
    assert forall|l: int, t: TxId| 0 <= l < a.memory.cells.len() && t < a.ctx.finality implies {
        &&& #[trigger] a.memory.cells[l].contains_key(t) == c.memory.cells[l].contains_key(t)
        &&& a.memory.cells[l].contains_key(t) ==> a.memory.cells[l][t] == c.memory.cells[l][t]
    } by {
        assert(a.memory.cells[l].contains_key(t) == b.memory.cells[l].contains_key(t));
        assert(b.memory.cells[l].contains_key(t) == c.memory.cells[l].contains_key(t));
    }
}

/// Making every possible transaction final in a row keeps soundness.
pub proof fn law_finality_keeps_soundness<S, R, E>(before: SchedulerView<S, R, E>)
    requires
        before.sound(),
    ensures
        before.finalized().sound(),
        before.keeps_finality(before.finalized()),
        before.intact() ==> before.finalized().intact(),
    decreases before.states.len() - before.ctx.finality,
{
    if before.finality_candidate() is Some {
        lemma_finalized_next_sound(before);
        law_finality_keeps_soundness(before.finalized_next());
        lemma_keeps_finality_chain(before, before.finalized_next(), before.finalized());
    }
}

/// The ordered commit always finds an output: as long as results are taken one at a time, a final
/// transaction has neither lost its result nor failed. Taking the result keeps soundness, and
/// committing it leaves every remaining final transaction with its result.
pub proof fn law_commit_finds_an_output<S, R, E>(before: SchedulerView<S, R, E>)
    requires
        before.sound(),
        before.intact(),
        before.commit_pending(),
    ensures
        before.results[before.ctx.committed] is Some,
        before.results[before.ctx.committed]->0.outcome is Ok,
        before.commit_taken().sound(),
        before.keeps_finality(before.commit_taken()),
        (SchedulerView {
            ctx: ContextView { committed: before.ctx.committed + 1, ..before.ctx },
            ..before.commit_taken()
        }).sound(),
        (SchedulerView {
            ctx: ContextView { committed: before.ctx.committed + 1, ..before.ctx },
            ..before.commit_taken()
        }).intact(),
{
    let txid = before.ctx.committed;
    let taken = before.commit_taken();
    assert(stands(before.states[txid].status));
    assert(taken.control == before.control);
    lemma_without_result(before, taken, txid);
    let after = SchedulerView {
        ctx: ContextView { committed: txid + 1, ..before.ctx },
        ..taken
    };
    lemma_without_result(before, after, txid);
    assert(after.intact()) by {
        assert forall|t: int| after.ctx.committed <= t < after.ctx.finality implies (
        #[trigger] after.results[t]) is Some by {
            assert(before.results[t] is Some);
        }
    }
}

/// Soundness does not need the result of a final transaction.
pub(crate) proof fn lemma_without_result<S, R, E>(
    before: SchedulerView<S, R, E>,
    after: SchedulerView<S, R, E>,
    txid: int,
)
    requires
        before.sound(),
        0 <= txid < before.ctx.finality,
        after.states == before.states,
        after.results == before.results.update(txid, None),
        after.memory == before.memory,
        after.finality_lower == before.finality_lower,
        after.ctx == (ContextView { committed: after.ctx.committed, ..before.ctx }),
        0 <= after.ctx.committed <= before.ctx.finality,
    ensures
        after.sound(),
        before.keeps_finality(after),
{
    assert(after.cursors_sound());
    assert(after.clock_sound());
    assert(after.memory_sound()) by {
        assert forall|l: int, t: TxId|
            0 <= l < after.memory.cells.len() && t < after.states.len() && after.results[t as int]
                is Some implies (#[trigger] after.memory.cells[l].contains_key(t)
            == after.results[t as int]->0.writes.contains(l as usize)) by {
            assert(before.memory.cells[l].contains_key(t)
                == before.results[t as int]->0.writes.contains(l as usize));
        }
    }
    assert(after.results_sound()) by {
        assert forall|t: int|
            0 <= t < after.states.len() && stands((#[trigger] after.states[t]).status) implies {
            &&& t < after.ctx.finality || after.results[t] is Some
            &&& after.results[t] is Some ==> after.results[t]->0.outcome is Ok
        } by {
            assert(stands(before.states[t].status));
        }
    }
    assert(after.reads_sound()) by {
        assert forall|t: int|
            0 <= t < after.states.len() && (#[trigger] after.results[t]) is Some && (t
                < after.ctx.finality || (after.states[t].status == TransactionStatus::Unconfirmed
                && t < after.ctx.validation && after.validated_since_rollback(t))) implies reads_valid(
            after.memory.cells,
            t as usize,
            after.results[t]->0.reads,
        ) by {
            assert(t != txid);
            lemma_reads_carry_over(before, after, t);
        }
    }
}

/// Learning of a new location keeps soundness.
pub proof fn law_new_location_keeps_soundness<S, R, E>(
    before: SchedulerView<S, R, E>,
    after: SchedulerView<S, R, E>,
)
    requires
        before.sound(),
        before.memory.cells.len() < usize::MAX,
        after == (SchedulerView {
            memory: MemoryView {
                ids: after.memory.ids,
                cells: before.memory.cells.push(Map::empty()),
            },
            ..before
        }),
    ensures
        after.sound(),
        before.keeps_finality(after),
        before.intact() ==> after.intact(),
{
    let cells = before.memory.cells;
    let longer = after.memory.cells;
    assert(after.cursors_sound());
    assert(after.clock_sound());
    assert(after.memory_sound()) by {
        assert forall|l: int, t: TxId|
            0 <= l < longer.len() && t < after.states.len() && after.results[t as int]
                is Some implies (#[trigger] longer[l].contains_key(t)
            == after.results[t as int]->0.writes.contains(l as usize)) by {
            if l < cells.len() {
                assert(cells[l].contains_key(t) == before.results[t as int]->0.writes.contains(
                    l as usize,
                ));
            } else {
                assert(before.results[t as int] is Some);
            }
        }
        assert forall|l: int, t: TxId|
            0 <= l < longer.len() && (#[trigger] longer[l].contains_key(t)) implies {
            let entry = longer[l][t];
            &&& t < after.states.len()
            &&& if stands(after.states[t as int].status) {
                !entry.estimate && entry.incarnation == after.states[t as int].incarnation
            } else {
                entry.estimate
            }
            &&& t < after.ctx.finality || after.results[t as int] is Some
        } by {
            assert(cells[l].contains_key(t));
        }
    }
    assert(after.results_sound());
    assert(after.reads_sound()) by {
        assert forall|t: int|
            0 <= t < after.states.len() && (#[trigger] after.results[t]) is Some && (t
                < after.ctx.finality || (after.states[t].status == TransactionStatus::Unconfirmed
                && t < after.ctx.validation && after.validated_since_rollback(t))) implies reads_valid(
            longer,
            t as usize,
            after.results[t]->0.reads,
        ) by {
            lemma_reads_carry_over(before, after, t);
            let reads = before.results[t]->0.reads;
            assert forall|l: LocationId| #[trigger] reads.contains_key(l) implies read_valid(
                longer,
                t as usize,
                l,
                reads[l],
            ) by {
                assert(read_valid(cells, t as usize, l, reads[l]));
                if l == cells.len() {
                    lemma_is_last_writer(longer[l as int], t, -1);
                }
            }
        }
    }
}

/// Final results are the results of sequential execution: at every location that a final
/// transaction read, it saw exactly what the latest earlier writer left there. That writer is
/// itself final, so the write is firm and of its last incarnation; and where no earlier
/// transaction wrote, the state before the block was read.
pub proof fn law_final_reads_follow_block_order<S, R, E>(
    view: SchedulerView<S, R, E>,
    txid: TxId,
    location: LocationId,
)
    requires
        view.sound(),
        txid < view.ctx.finality,
        view.results[txid as int] is Some,
        view.results[txid as int]->0.reads.contains_key(location),
    ensures
        view.results[txid as int]->0.outcome is Ok,
        match latest_before(view.memory.cells, location, txid) {
            Some((writer, entry)) => {
                &&& writer < txid
                &&& view.states[writer as int].status == TransactionStatus::Finality
                &&& !entry.estimate
                &&& entry.incarnation == view.states[writer as int].incarnation
                &&& view.results[txid as int]->0.reads[location] == ReadVersion::MvMemory(
                    TxVersion { txid: writer, incarnation: entry.incarnation },
                )
            },
            None => view.results[txid as int]->0.reads[location] == ReadVersion::Storage,
        },
{
    assert(stands(view.states[txid as int].status));
    let reads = view.results[txid as int]->0.reads;
    assert(reads_valid(view.memory.cells, txid, reads));
    assert(read_valid(view.memory.cells, txid, location, reads[location]));
    if location < view.memory.cells.len() {
        let cell = view.memory.cells[location as int];
        lemma_last_writer(cell, txid as int);
        if last_writer(cell, txid as int) >= 0 {
            let writer = last_writer(cell, txid as int) as usize;
            assert(view.memory.cells[location as int].contains_key(writer));
            assert(view.states[writer as int].status == TransactionStatus::Finality);
        }
    }
}

} // verus!
