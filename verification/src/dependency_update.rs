//! What the decisions of the scheduler mean for the dependency graph.

use crate::model::{DependencyUpdate, ExecutionAttempt, LocationId, ReadVersion, TxVersion};
use crate::mv_memory::Cells;
use crate::scheduler_view::{highest_read, SchedulerView};
use crate::tx_dependency::{
    law_add_preserves_soundness, law_linked_dependents_are_in_range,
    law_release_preserves_soundness, DependencyView, TxDependency, TxId, EXECUTE_DISTANCE,
};
use vstd::prelude::*;

verus! {

broadcast use TxDependency::lemma_wf;

/// The transaction that an update is about.
pub open spec fn updated_tx(update: DependencyUpdate) -> TxId {
    match update {
        DependencyUpdate::KeyTx(txid) => txid,
        DependencyUpdate::Add(txid, _) => txid,
        DependencyUpdate::Release(txid) => txid,
        DependencyUpdate::Skip(txid) => txid,
        DependencyUpdate::Commit(txid) => txid,
    }
}

/// The update is about a transaction of the block and makes it wait for an earlier one at most.
pub open spec fn points_backwards(update: DependencyUpdate, block_size: nat) -> bool {
    &&& updated_tx(update) < block_size
    &&& match update {
        DependencyUpdate::Add(txid, Some(dep)) => dep < txid,
        _ => true,
    }
}

impl DependencyView {
    /// Links are mutual and point backwards, and no ready transaction lies behind the search
    /// position.
    pub open spec fn sound(self) -> bool {
        self.linked() && self.reachable()
    }

    /// The graph after a transaction was put back to wait for `dep_id`; one that waits already
    /// stays as it is.
    pub open spec fn put_back(self, txid: TxId, dep_id: Option<TxId>) -> DependencyView {
        if self.states[txid as int].onboard || self.states[txid as int].dependency is Some {
            self
        } else {
            self.added(txid, dep_id)
        }
    }

    /// How an update turns this graph into `after`, once `committed` transactions are committed.
    pub open spec fn follows(
        self,
        update: DependencyUpdate,
        committed: usize,
        after: DependencyView,
    ) -> bool {
        match update {
            // Everything before a key transaction has to be committed first.
            DependencyUpdate::KeyTx(txid) => after == self.put_back(
                txid,
                if committed < txid {
                    Some((txid - 1) as usize)
                } else {
                    None
                },
            ),
            DependencyUpdate::Add(txid, dep_id) => after == self.put_back(txid, dep_id),
            DependencyUpdate::Release(txid) | DependencyUpdate::Skip(txid) => self.released(
                txid,
                EXECUTE_DISTANCE,
                after,
            ),
            DependencyUpdate::Commit(txid) => self.released(txid, 0, after),
        }
    }
}

impl TxDependency {
    /// Puts a transaction back to wait for `dep_id`, unless it waits already.
    fn put_back(&mut self, txid: TxId, dep_id: Option<TxId>)
        requires
            old(self).wf(),
            old(self)@.sound(),
            txid < old(self)@.states.len(),
            dep_id matches Some(dep) ==> dep < txid,
        ensures
            final(self).wf(),
            final(self)@ == old(self)@.put_back(txid, dep_id),
    {
        let state = self.dependent_states()[txid];
        if !state.onboard && state.dependency.is_none() {
            proof {
                if let Some(dep) = dep_id {
                    assert(self@.affects[dep as int].contains(txid) <==> (dep < txid
                        < self@.states.len() && self@.states[txid as int].dependency == Some(dep)));
                }
            }
            self.add(txid, dep_id);
        }
    }

    /// Carries out what the scheduler decided, once `committed` transactions are committed.
    pub fn update(&mut self, update: DependencyUpdate, committed: usize)
        requires
            old(self).wf(),
            old(self)@.sound(),
            points_backwards(update, old(self)@.states.len()),
        ensures
            final(self).wf(),
            final(self)@.sound(),
            final(self)@.states.len() == old(self)@.states.len(),
            old(self)@.follows(update, committed, final(self)@),
    {
        proof {
            law_updates_preserve_soundness(self@, update, committed);
            law_linked_dependents_are_in_range(self@, updated_tx(update));
        }
        match update {
            DependencyUpdate::KeyTx(txid) => {
                let previous: Option<TxId> = if committed < txid {
                    Some(txid - 1)
                } else {
                    None
                };
                self.put_back(txid, previous);
            },
            DependencyUpdate::Add(txid, dep_id) => {
                self.put_back(txid, dep_id);
            },
            DependencyUpdate::Release(txid) | DependencyUpdate::Skip(txid) => {
                self.remove_after_execution(txid);
            },
            DependencyUpdate::Commit(txid) => {
                self.remove_after_commit(txid);
            },
        }
        assert(old(self)@.follows(update, committed, self@));
    }
}

/// Every update keeps the links mutual and leaves no ready transaction behind the search position.
pub proof fn law_updates_preserve_soundness(
    graph: DependencyView,
    update: DependencyUpdate,
    committed: usize,
)
    requires
        graph.states.len() == graph.affects.len(),
        graph.states.len() <= usize::MAX,
        graph.sound(),
        points_backwards(update, graph.states.len()),
    ensures
        forall|after: DependencyView| #[trigger]
            graph.follows(update, committed, after) ==> after.sound() && after.states.len()
                == graph.states.len(),
{
    assert forall|after: DependencyView| #[trigger]
        graph.follows(update, committed, after) implies after.sound() && after.states.len()
        == graph.states.len() by {
        let txid = updated_tx(update);
        let waits = graph.states[txid as int].onboard || graph.states[txid as int].dependency is Some;
        match update {
            DependencyUpdate::KeyTx(_) => {
                if !waits {
                    law_add_preserves_soundness(
                        graph,
                        txid,
                        if committed < txid {
                            Some((txid - 1) as usize)
                        } else {
                            None
                        },
                    );
                }
            },
            DependencyUpdate::Add(_, dep_id) => {
                if !waits {
                    law_add_preserves_soundness(graph, txid, dep_id);
                }
            },
            DependencyUpdate::Release(_) | DependencyUpdate::Skip(_) => {
                law_release_preserves_soundness(graph, txid, EXECUTE_DISTANCE, after);
            },
            DependencyUpdate::Commit(_) => {
                law_release_preserves_soundness(graph, txid, 0, after);
            },
        }
    }
}

/// The latest transaction that is read from comes before the reader.
proof fn lemma_highest_read_is_earlier(
    cells: Cells,
    txid: TxId,
    reads: Map<LocationId, ReadVersion>,
    floor: int,
    bound: int,
)
    requires
        bound <= txid,
    ensures
        highest_read(cells, txid, reads, floor, bound) matches Some(writer) ==> writer < bound,
    decreases bound,
{
    if bound > floor && bound > 0 {
        lemma_highest_read_is_earlier(cells, txid, reads, floor, bound - 1);
    }
}

/// Whatever an execution or a validation of a transaction of the block tells the dependency graph
/// makes that transaction wait for an earlier one at most, so that waiting never goes in circles.
pub proof fn law_decisions_point_backwards<S, R, E>(
    scheduler: SchedulerView<S, R, E>,
    version: TxVersion,
    attempt: ExecutionAttempt<R, E>,
)
    requires
        version.txid < scheduler.states.len(),
    ensures
        points_backwards(scheduler.update_after(version, attempt), scheduler.states.len()),
        points_backwards(scheduler.conflict_update(version.txid), scheduler.states.len()),
{
    let txid = version.txid;
    if let ExecutionAttempt::Done { read_set, .. } = attempt {
        lemma_highest_read_is_earlier(
            scheduler.cells_after(version, attempt),
            txid,
            crate::read_set::versions(read_set),
            scheduler.ctx.finality,
            txid as int,
        );
    }
    lemma_highest_read_is_earlier(
        scheduler.memory.cells,
        txid,
        scheduler.reads_of(txid),
        0,
        txid as int,
    );
}

/// What an update makes a transaction wait for, unless it waits already: one whose reads must not
/// go past an uncommitted transaction waits for the one before it until everything before it is
/// committed, and one with a known dependency waits for that.
pub proof fn law_updates_put_transactions_back(
    before: DependencyView,
    update: DependencyUpdate,
    committed: usize,
    after: DependencyView,
)
    requires
        before.states.len() == before.affects.len(),
        before.states.len() <= usize::MAX,
        before.follows(update, committed, after),
        points_backwards(update, before.states.len()),
        update is KeyTx || update is Add,
    ensures
        ({
            let txid = updated_tx(update) as int;
            let waits_for = match update {
                DependencyUpdate::Add(_, dep_id) => dep_id,
                _ => if committed >= txid {
                    None
                } else {
                    Some((txid - 1) as usize)
                },
            };
            if before.states[txid].onboard || before.states[txid].dependency is Some {
                after == before
            } else {
                &&& after.states[txid].onboard
                &&& after.states[txid].dependency == waits_for
                &&& waits_for is Some ==> after.affects[waits_for->0 as int].contains(txid as usize)
                &&& waits_for is None ==> after.index <= txid
            }
        }),
{
}

/// Whom an update frees: the end of an execution, or finding that none is needed, frees those that
/// were known to depend on the transaction from the start and those found meanwhile that lie at
/// least sixteen ahead; a commit frees all that wait for it.
pub proof fn law_updates_free_dependents(
    before: DependencyView,
    update: DependencyUpdate,
    committed: usize,
    after: DependencyView,
    t: TxId,
)
    requires
        before.states.len() == before.affects.len(),
        before.states.len() <= usize::MAX,
        before.linked(),
        before.follows(update, committed, after),
        points_backwards(update, before.states.len()),
        update is Release || update is Skip || update is Commit,
        t < before.states.len(),
        before.states[t as int].dependency == Some(updated_tx(update)),
    ensures
        ({
            let txid = updated_tx(update);
            let freed = update is Commit || !before.states[t as int].dynamic || t - txid >= 16;
            &&& freed ==> after.states[t as int].dependency is None
            &&& !freed ==> after.states[t as int] == before.states[t as int]
        }),
{
    crate::tx_dependency::law_release_frees_dependents(
        before,
        updated_tx(update),
        if update is Commit {
            0
        } else {
            EXECUTE_DISTANCE
        },
        after,
        t,
    );
}

} // verus!
