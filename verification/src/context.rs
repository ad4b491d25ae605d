//! Cursors and logical timestamps shared by the scheduler roles.

use crate::atomic::{PublishedCursorReader, RelaxedUsize, RewindableCursor};
use crate::tx_dependency::TxId;
use vstd::prelude::*;

verus! {

/// The mathematical content of a [`SchedulerContext`].
#[verifier::ext_equal]
pub struct ContextView {
    /// The next transaction to be validated.
    pub validation: int,
    /// The number of final transactions.
    pub finality: int,
    /// The number of committed transactions.
    pub committed: int,
    /// One past the last transaction that was ever executed.
    pub frontier: int,
    /// The next logical timestamp.
    pub clock: int,
    /// Per transaction, when validation was last rolled back to it.
    pub lower: Seq<usize>,
    /// Per transaction, when its last successful validation began.
    pub unconfirmed: Seq<usize>,
    /// How often validation was rolled back.
    pub resets: RelaxedUsize,
}

impl ContextView {
    /// The context of a block that has not started.
    pub open spec fn start(num_txs: nat) -> ContextView {
        ContextView {
            validation: 0,
            finality: 0,
            committed: 0,
            frontier: 0,
            clock: 1,
            lower: Seq::new(num_txs, |t: int| 0usize),
            unconfirmed: Seq::new(num_txs, |t: int| 0usize),
            resets: RelaxedUsize(0),
        }
    }

    /// The context after validation was rolled back to `index`: a cursor that was further ahead
    /// moves back, and everything validated before now has to be validated again from there.
    pub open spec fn rewound(self, index: int) -> ContextView {
        if self.validation > index {
            ContextView {
                validation: index,
                clock: self.clock + 1,
                lower: self.lower.update(index, self.clock as usize),
                resets: self.resets.plus(1),
                ..self
            }
        } else {
            self
        }
    }

    /// The context after a timestamp was drawn.
    pub open spec fn ticked(self) -> ContextView {
        ContextView { clock: self.clock + 1, ..self }
    }

    /// The context after `txid` was executed.
    pub open spec fn executed(self, txid: TxId) -> ContextView {
        ContextView {
            frontier: if txid >= self.frontier {
                txid + 1
            } else {
                self.frontier
            },
            ..self
        }
    }

    /// The context after `txid` was validated by a validation that began at `timestamp`.
    pub open spec fn confirmed(self, txid: TxId, timestamp: usize) -> ContextView {
        ContextView { unconfirmed: self.unconfirmed.update(txid as int, timestamp), ..self }
    }

    /// The first position that must not be claimed for validation.
    pub open spec fn validation_limit(self, execution_idx: usize) -> int {
        if execution_idx < self.lower.len() {
            execution_idx as int
        } else {
            self.lower.len() as int
        }
    }
}

/// Cursors and logical timestamps of one block.
pub struct SchedulerContext {
    num_txs: usize,
    validation: RewindableCursor,
    finality: usize,
    committed: usize,
    frontier: usize,
    clock: usize,
    lower_ts: Vec<usize>,
    unconfirmed_ts: Vec<usize>,
    resets: RelaxedUsize,
}

impl View for SchedulerContext {
    type V = ContextView;

    closed spec fn view(&self) -> ContextView {
        ContextView {
            validation: self.validation@ as int,
            finality: self.finality as int,
            committed: self.committed as int,
            frontier: self.frontier as int,
            clock: self.clock as int,
            lower: self.lower_ts@,
            unconfirmed: self.unconfirmed_ts@,
            resets: self.resets,
        }
    }
}

impl SchedulerContext {
    /// One pair of timestamps per transaction, and no cursor beyond the block.
    pub closed spec fn wf(&self) -> bool {
        &&& self.lower_ts.len() == self.num_txs
        &&& self.unconfirmed_ts.len() == self.num_txs
        &&& self.validation@ <= self.num_txs
        &&& self.finality <= self.num_txs
        &&& self.committed <= self.num_txs
        &&& self.frontier <= self.num_txs
    }

    /// What the representation invariant says about the view.
    pub broadcast proof fn lemma_wf(&self)
        requires
            #[trigger] self.wf(),
        ensures
            self@.lower.len() <= usize::MAX,
            self@.unconfirmed.len() == self@.lower.len(),
            0 <= self@.validation <= self@.lower.len(),
            0 <= self@.finality <= self@.lower.len(),
            0 <= self@.committed <= self@.lower.len(),
            0 <= self@.frontier <= self@.lower.len(),
            0 <= self@.clock <= usize::MAX,
    {
    }

    /// The context of a block with `num_txs` transactions.
    pub fn new(num_txs: usize) -> (context: Self)
        ensures
            context.wf(),
            context@ == ContextView::start(num_txs as nat),
    {
        let mut lower_ts: Vec<usize> = Vec::new();
        let mut unconfirmed_ts: Vec<usize> = Vec::new();
        let mut t: usize = 0;
        while t < num_txs
            invariant
                t <= num_txs,
                lower_ts@ == Seq::new(t as nat, |i: int| 0usize),
                unconfirmed_ts@ == Seq::new(t as nat, |i: int| 0usize),
            decreases num_txs - t,
        {
            lower_ts.push(0);
            unconfirmed_ts.push(0);
            t = t + 1;
            assert(lower_ts@ =~= Seq::new(t as nat, |i: int| 0usize));
            assert(unconfirmed_ts@ =~= Seq::new(t as nat, |i: int| 0usize));
        }
        SchedulerContext {
            num_txs,
            validation: RewindableCursor::new(0),
            finality: 0,
            committed: 0,
            frontier: 0,
            clock: 1,
            lower_ts,
            unconfirmed_ts,
            resets: RelaxedUsize::default(),
        }
    }

    /// The next transaction to be validated.
    pub fn validation_idx(&self) -> (index: usize)
        ensures
            index == self@.validation,
    {
        self.validation.get()
    }

    /// The number of final transactions.
    pub fn finality_idx(&self) -> (index: usize)
        ensures
            index == self@.finality,
    {
        self.finality
    }

    /// The number of committed transactions.
    pub fn committed_idx(&self) -> (index: usize)
        ensures
            index == self@.committed,
    {
        self.committed
    }

    /// A reader of the number of committed transactions.
    pub fn commit_cursor(&self) -> (reader: PublishedCursorReader<'_>)
        ensures
            reader.position() == self@.committed,
    {
        PublishedCursorReader::new(&self.committed)
    }

    /// One past the last transaction that was ever executed.
    pub fn execution_frontier(&self) -> (index: usize)
        ensures
            index == self@.frontier,
    {
        self.frontier
    }

    /// How often validation was rolled back.
    pub fn validation_reset_count(&self) -> (count: usize)
        ensures
            count == self@.resets.0,
    {
        self.resets.get()
    }

    /// Whether enough timestamps are left for one more scheduling step.
    pub fn has_headroom(&self) -> (enough: bool)
        ensures
            enough == (self@.clock <= usize::MAX - 2),
    {
        self.clock <= usize::MAX - 2
    }

    /// When validation was last rolled back to a transaction.
    pub fn lower_timestamp(&self, txid: TxId) -> (timestamp: usize)
        requires
            self.wf(),
            txid < self@.lower.len(),
        ensures
            timestamp == self@.lower[txid as int],
    {
        self.lower_ts[txid]
    }

    /// When the last successful validation of a transaction began.
    pub fn unconfirmed_timestamp(&self, txid: TxId) -> (timestamp: usize)
        requires
            self.wf(),
            txid < self@.lower.len(),
        ensures
            timestamp == self@.unconfirmed[txid as int],
    {
        self.unconfirmed_ts[txid]
    }

    /// Whether every transaction is final.
    pub fn finished(&self) -> (finished: bool)
        requires
            self.wf(),
        ensures
            finished == (self@.finality == self@.lower.len()),
    {
        self.finality >= self.num_txs
    }

    /// Whether there may be work: something left to execute or to validate.
    pub fn should_schedule(&self, execution_idx: usize) -> (work: bool)
        requires
            self.wf(),
        ensures
            work == (execution_idx < self@.lower.len() || self@.validation < self@.lower.len()),
    {
        execution_idx < self.num_txs || self.validation.get() < self.num_txs
    }

    /// Claims the next transaction for validation among those before `execution_idx`.
    pub fn next_validation_idx(&mut self, execution_idx: usize) -> (claimed: Option<usize>)
        requires
            old(self).wf(),
        ensures
            final(self).wf(),
            ({
                let before = old(self)@;
                if before.validation < before.validation_limit(execution_idx) {
                    &&& claimed == Some(before.validation as usize)
                    &&& final(self)@ == (ContextView {
                        validation: before.validation + 1,
                        ..before
                    })
                } else {
                    &&& claimed is None
                    &&& final(self)@ == before
                }
            }),
    {
        let limit: usize = if execution_idx < self.num_txs {
            execution_idx
        } else {
            self.num_txs
        };
        self.validation.claim_before(limit)
    }

    /// Draws a logical timestamp.
    pub fn logical_timestamp(&mut self) -> (timestamp: usize)
        requires
            old(self).wf(),
            old(self)@.clock < usize::MAX,
        ensures
            final(self).wf(),
            timestamp == old(self)@.clock,
            final(self)@ == old(self)@.ticked(),
    {
        let timestamp: usize = self.clock;
        self.clock = timestamp + 1;
        timestamp
    }

    /// Rolls validation back to `index`.
    pub fn rewind_validation_to(&mut self, index: usize)
        requires
            old(self).wf(),
            old(self)@.clock < usize::MAX,
        ensures
            final(self).wf(),
            final(self)@ == old(self)@.rewound(index as int),
    {
        let previous: usize = self.validation.rewind(index);
        if previous > index {
            let timestamp: usize = self.logical_timestamp();
            self.lower_ts.set(index, timestamp);
            self.resets.increment();
        }
    }

    /// Remembers that a transaction was executed.
    pub fn executed(&mut self, txid: TxId)
        requires
            old(self).wf(),
            txid < old(self)@.lower.len(),
        ensures
            final(self).wf(),
            final(self)@ == old(self)@.executed(txid),
    {
        if txid >= self.frontier {
            self.frontier = txid + 1;
        }
    }

    /// Remembers that a validation that began at `timestamp` succeeded.
    pub fn unconfirmed(&mut self, txid: TxId, timestamp: usize)
        requires
            old(self).wf(),
            txid < old(self)@.lower.len(),
        ensures
            final(self).wf(),
            final(self)@ == old(self)@.confirmed(txid, timestamp),
    {
        self.unconfirmed_ts.set(txid, timestamp);
    }

    /// Publishes the number of final transactions.
    pub fn publish_finality(&mut self, index: usize)
        requires
            old(self).wf(),
            index <= old(self)@.lower.len(),
        ensures
            final(self).wf(),
            final(self)@ == (ContextView { finality: index as int, ..old(self)@ }),
    {
        self.finality = index;
    }

    /// Publishes the number of committed transactions.
    pub fn publish_commit(&mut self, index: usize)
        requires
            old(self).wf(),
            index <= old(self)@.lower.len(),
        ensures
            final(self).wf(),
            final(self)@ == (ContextView { committed: index as int, ..old(self)@ }),
    {
        self.committed = index;
    }
}

} // verus!
