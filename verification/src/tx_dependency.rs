//! The dependency graph that decides which transaction may be executed next.

use crate::tx_set::{set_contains, set_insert, set_items, set_new, set_remove};
use ahash::AHashSet;
use vstd::prelude::*;

verus! {

/// Position of a transaction in its block.
pub type TxId = usize;

/// How far ahead a dynamic dependent must be to be released once its dependency has executed.
pub const EXECUTE_DISTANCE: usize = 16;

/// How far ahead a dynamic dependent must be to be released once its dependency was validated.
pub const VALIDATION_DISTANCE: usize = 8;

/// What the graph knows about one transaction.
#[derive(Debug, Clone, Copy, PartialEq, Eq, Structural)]
pub struct DependentState {
    /// The transaction waits to be handed out.
    pub onboard: bool,
    /// The dependency was discovered while the block was running.
    pub dynamic: bool,
    /// The transaction that has to make progress first.
    pub dependency: Option<TxId>,
}

impl Default for DependentState {
    fn default() -> (state: Self)
        ensures
            state == (DependentState { onboard: true, dynamic: false, dependency: None }),
    {
        DependentState { onboard: true, dynamic: false, dependency: None }
    }
}

impl DependentState {
    /// A transaction that can be handed out right away.
    pub open spec fn ready(self) -> bool {
        self.onboard && self.dependency is None
    }
}

/// The number of transactions that wait to be handed out.
pub open spec fn onboard_count(states: Seq<DependentState>) -> nat
    decreases states.len(),
{
    if states.len() == 0 {
        0
    } else {
        onboard_count(states.drop_last()) + if states.last().onboard {
            1nat
        } else {
            0nat
        }
    }
}

/// Position of the first ready transaction at or after `from`, or the block size.
pub open spec fn first_ready(states: Seq<DependentState>, from: int) -> int
    decreases states.len() - from,
{
    if from >= states.len() || from < 0 {
        states.len() as int
    } else if states[from].ready() {
        from
    } else {
        first_ready(states, from + 1)
    }
}

/// The mathematical content of a [`TxDependency`].
#[verifier::ext_equal]
pub struct DependencyView {
    /// Per-transaction scheduling state.
    pub states: Seq<DependentState>,
    /// Per transaction, the transactions registered as waiting for it.
    pub affects: Seq<Set<TxId>>,
    /// The position from which the next search starts.
    pub index: int,
}

impl DependencyView {
    /// `next` directly continues the chain that ends in `next - 1`.
    pub open spec fn continues(self, next: int) -> bool {
        &&& 0 < next < self.states.len()
        &&& self.affects[next - 1].contains(next as usize)
        &&& self.states[next].dependency == Some((next - 1) as usize)
        &&& self.states[next].onboard
    }

    /// One past the last transaction of the maximal linear chain that starts at `start`.
    pub open spec fn chain_end(self, start: int) -> int
        decreases self.states.len() - start,
    {
        if self.continues(start + 1) {
            self.chain_end(start + 1)
        } else {
            start + 1
        }
    }

    /// One past the last transaction handed out together with `first`.
    pub open spec fn batch_end(self, first: int, finality_idx: TxId) -> int {
        if first == finality_idx {
            self.chain_end(first)
        } else {
            first + 1
        }
    }

    /// The graph after handing out the transactions in `first..end`.
    pub open spec fn handed_out(self, first: int, end: int) -> DependencyView {
        DependencyView {
            states: Seq::new(
                self.states.len(),
                |t: int|
                    if first <= t < end {
                        DependentState { onboard: false, dependency: None, ..self.states[t] }
                    } else {
                        self.states[t]
                    },
            ),
            affects: Seq::new(
                self.affects.len(),
                |d: int|
                    if first <= d < end - 1 {
                        self.affects[d].remove((d + 1) as usize)
                    } else {
                        self.affects[d]
                    },
            ),
            index: first + 1,
        }
    }

    /// The transactions that one search hands out.
    pub open spec fn next_batch(self, finality_idx: TxId) -> Seq<TxId> {
        let first = first_ready(self.states, self.index);
        if first >= self.states.len() {
            Seq::empty()
        } else {
            Seq::new(
                (self.batch_end(first, finality_idx) - first) as nat,
                |i: int| (first + i) as usize,
            )
        }
    }

    /// The graph after one search.
    pub open spec fn after_next(self, finality_idx: TxId) -> DependencyView {
        let first = first_ready(self.states, self.index);
        if first >= self.states.len() {
            DependencyView {
                index: if self.index > self.states.len() {
                    self.index
                } else {
                    self.states.len() as int
                },
                ..self
            }
        } else {
            self.handed_out(first, self.batch_end(first, finality_idx))
        }
    }

    /// Finishing `txid` releases its dependent `t` when the release distance is `distance`.
    pub open spec fn releases(self, txid: TxId, distance: usize, t: TxId) -> bool {
        &&& self.affects[txid as int].contains(t)
        &&& !self.states[t as int].dynamic || t - txid >= distance
    }

    /// Finishing `txid` makes its dependent `t` ready.
    pub open spec fn readies(self, txid: TxId, distance: usize, t: TxId) -> bool {
        &&& self.releases(txid, distance, t)
        &&& self.states[t as int].dependency == Some(txid)
        &&& self.states[t as int].onboard
    }

    /// The per-transaction states after the dependents of `txid` were released.
    pub open spec fn released_states(self, txid: TxId, distance: usize) -> Seq<DependentState> {
        Seq::new(
            self.states.len(),
            |t: int|
                if self.releases(txid, distance, t as usize) && self.states[t].dependency == Some(
                    txid,
                ) {
                    DependentState { dependency: None, ..self.states[t] }
                } else {
                    self.states[t]
                },
        )
    }

    /// `after` is the graph once the dependents of `txid` were released at `distance`.
    pub open spec fn released(self, txid: TxId, distance: usize, after: DependencyView) -> bool {
        &&& after.states == self.released_states(txid, distance)
        &&& after.affects == self.affects.update(
            txid as int,
            self.affects[txid as int].filter(|t: TxId| !self.releases(txid, distance, t)),
        )
        &&& after.index <= self.index
        &&& after.index == self.index || self.readies(txid, distance, after.index as usize)
        &&& forall|t: TxId| #[trigger] self.readies(txid, distance, t) ==> after.index <= t
    }

    /// The graph after `txid` was put back to wait for `dep_id`, or for nothing.
    pub open spec fn added(self, txid: TxId, dep_id: Option<TxId>) -> DependencyView {
        let state = self.states[txid as int];
        match dep_id {
            Some(dep) => {
                let states = self.states.update(
                    txid as int,
                    DependentState { onboard: true, dynamic: true, dependency: Some(dep) },
                );
                let dep_state = self.states[dep as int];
                DependencyView {
                    states: states.update(
                        dep as int,
                        DependentState { onboard: true, ..dep_state },
                    ),
                    affects: self.affects.update(
                        dep as int,
                        self.affects[dep as int].insert(txid),
                    ),
                    index: if !self.affects[dep as int].contains(txid) && dep_state.dependency is None
                        && dep < self.index {
                        dep as int
                    } else {
                        self.index
                    },
                }
            },
            None => DependencyView {
                states: self.states.update(txid as int, DependentState { onboard: true, ..state }),
                affects: self.affects,
                index: if txid < self.index {
                    txid as int
                } else {
                    self.index
                },
            },
        }
    }

    /// Every dependent of `txid` is a transaction of the block, and the dynamic ones come after it.
    pub open spec fn dependents_in_range(self, txid: TxId) -> bool {
        forall|t: TxId| #[trigger]
            self.affects[txid as int].contains(t) ==> {
                &&& t < self.states.len()
                &&& self.states[t as int].dynamic ==> txid <= t
            }
    }

    /// Every dependency link is recorded on both sides and points backwards in the block.
    pub open spec fn linked(self) -> bool {
        &&& forall|d: int, t: TxId|
            0 <= d < self.states.len() ==> (#[trigger] self.affects[d].contains(t) <==> (d < t
                < self.states.len() && self.states[t as int].dependency == Some(d as usize)))
        &&& forall|t: int|
            0 <= t < self.states.len() ==> ((#[trigger] self.states[t]).dependency matches Some(d)
                ==> d < t)
    }

    /// No ready transaction lies behind the search position.
    pub open spec fn reachable(self) -> bool {
        forall|t: int|
            0 <= t < self.states.len() && (#[trigger] self.states[t]).ready() ==> self.index <= t
    }
}

/// Tracks, for every transaction of a block, whether it waits to be executed and for whom.
pub struct TxDependency {
    num_txs: usize,
    dependent_state: Vec<DependentState>,
    affect_txs: Vec<AHashSet<TxId>>,
    num_onboard: usize,
    index: usize,
}

impl View for TxDependency {
    type V = DependencyView;

    closed spec fn view(&self) -> DependencyView {
        DependencyView {
            states: self.dependent_state@,
            affects: self.affect_txs@.map_values(|set: AHashSet<TxId>| crate::tx_set::members(set)),
            index: self.index as int,
        }
    }
}

/// Changing one state changes the count by that state alone.
proof fn lemma_count_update(states: Seq<DependentState>, t: int, state: DependentState)
    requires
        0 <= t < states.len(),
    ensures
        onboard_count(states.update(t, state)) + (if states[t].onboard {
            1nat
        } else {
            0nat
        }) == onboard_count(states) + (if state.onboard {
            1nat
        } else {
            0nat
        }),
    decreases states.len(),
{
    let updated = states.update(t, state);
    if t == states.len() - 1 {
        assert(updated.drop_last() =~= states.drop_last());
    } else {
        assert(updated.drop_last() =~= states.drop_last().update(t, state));
        lemma_count_update(states.drop_last(), t, state);
    }
}

/// The count never exceeds the number of transactions.
proof fn lemma_count_bound(states: Seq<DependentState>)
    ensures
        onboard_count(states) <= states.len(),
    decreases states.len(),
{
    if states.len() > 0 {
        lemma_count_bound(states.drop_last());
    }
}

/// When every transaction waits, the count is the number of transactions.
proof fn lemma_count_all(states: Seq<DependentState>)
    requires
        forall|t: int| 0 <= t < states.len() ==> (#[trigger] states[t]).onboard,
    ensures
        onboard_count(states) == states.len(),
    decreases states.len(),
{
    if states.len() > 0 {
        assert forall|t: int| 0 <= t < states.drop_last().len() implies (
        #[trigger] states.drop_last()[t]).onboard by {
            assert(states.drop_last()[t] == states[t]);
        }
        lemma_count_all(states.drop_last());
    }
}

/// The count depends on the `onboard` flags alone.
proof fn lemma_count_same(a: Seq<DependentState>, b: Seq<DependentState>)
    requires
        a.len() == b.len(),
        forall|t: int| 0 <= t < a.len() ==> (#[trigger] a[t]).onboard == b[t].onboard,
    ensures
        onboard_count(a) == onboard_count(b),
    decreases a.len(),
{
    if a.len() > 0 {
        assert forall|t: int| 0 <= t < a.drop_last().len() implies (
        #[trigger] a.drop_last()[t]).onboard == b.drop_last()[t].onboard by {
            assert(a.drop_last()[t] == a[t]);
            assert(b.drop_last()[t] == b[t]);
        }
        assert(a.last() == a[a.len() - 1]);
        lemma_count_same(a.drop_last(), b.drop_last());
    }
}

/// The search finds the first ready transaction: nothing before it is ready, and it is ready
/// unless the search ran off the block.
pub proof fn lemma_first_ready(states: Seq<DependentState>, from: int)
    requires
        0 <= from,
    ensures
        from <= first_ready(states, from) || from > states.len(),
        first_ready(states, from) <= states.len(),
        first_ready(states, from) < states.len() ==> states[first_ready(states, from)].ready(),
        forall|t: int|
            from <= t < first_ready(states, from) ==> !(#[trigger] states[t]).ready(),
    decreases states.len() - from,
{
    if from < states.len() && !states[from].ready() {
        lemma_first_ready(states, from + 1);
    }
}

/// A chain covers at least its start and stays inside the block; each member but the first
/// directly continues the one before it, and the chain cannot be extended.
pub proof fn lemma_chain(graph: DependencyView, start: int)
    requires
        0 <= start < graph.states.len(),
    ensures
        start < graph.chain_end(start) <= graph.states.len(),
        forall|t: int| start < t < graph.chain_end(start) ==> #[trigger] graph.continues(t),
        !graph.continues(graph.chain_end(start)),
    decreases graph.states.len() - start,
{
    if graph.continues(start + 1) {
        lemma_chain(graph, start + 1);
    }
}

/// `t` is among the first `count` items.
spec fn seen(items: Seq<TxId>, count: int, t: TxId) -> bool {
    exists|k: int| 0 <= k < count && k < items.len() && #[trigger] items[k] == t
}

/// Chains agree in graphs that agree on every direct continuation behind the start.
proof fn lemma_same_chain(a: DependencyView, b: DependencyView, start: int)
    requires
        a.states.len() == b.states.len(),
        forall|t: int| start < t ==> (#[trigger] a.continues(t) == b.continues(t)),
    ensures
        a.chain_end(start) == b.chain_end(start),
    decreases a.states.len() - start,
{
    if a.continues(start + 1) {
        lemma_same_chain(a, b, start + 1);
    }
}

/// A graph without dependencies is linked, and all of it is still to be searched.
pub proof fn law_new_graph_is_sound(num_txs: nat)
    ensures
        ({
            let graph = DependencyView {
                states: Seq::new(
                    num_txs,
                    |t: int|
                        DependentState { onboard: true, dynamic: false, dependency: None },
                ),
                affects: Seq::new(num_txs, |d: int| Set::<TxId>::empty()),
                index: 0,
            };
            graph.linked() && graph.reachable()
        }),
{
}

/// Searching keeps the links mutual and leaves no ready transaction behind the search position.
pub proof fn law_next_preserves_soundness(graph: DependencyView, finality_idx: TxId)
    requires
        graph.states.len() == graph.affects.len(),
        graph.states.len() <= usize::MAX,
        0 <= graph.index,
        graph.linked(),
        graph.reachable(),
    ensures
        graph.after_next(finality_idx).linked(),
        graph.after_next(finality_idx).reachable(),
{
    let first = first_ready(graph.states, graph.index);
    lemma_first_ready(graph.states, graph.index);
    if first < graph.states.len() {
        lemma_chain(graph, first);
        let end = graph.batch_end(first, finality_idx);
        let after = graph.handed_out(first, end);
        assert(forall|t: int| first < t < end ==> #[trigger] graph.continues(t));
        assert forall|d: int, t: TxId| 0 <= d < after.states.len() implies (
        #[trigger] after.affects[d].contains(t) <==> (d < t < after.states.len()
            && after.states[t as int].dependency == Some(d as usize))) by {
            assert(graph.affects[d].contains(t) <==> (d < t < graph.states.len()
                && graph.states[t as int].dependency == Some(d as usize)));
            if first < t < end {
                assert(graph.continues(t as int));
            }
            if first <= d < end - 1 {
                assert(graph.continues(d + 1));
            }
        }
        assert forall|t: int|
            0 <= t < after.states.len() && (#[trigger] after.states[t]).ready() implies after.index
            <= t by {
            assert(graph.states[t].ready());
        }
    }
}

/// A search over a sound graph comes back empty-handed exactly when no transaction is ready, and
/// otherwise starts with the earliest ready transaction of the whole block.
pub proof fn law_next_finds_the_earliest_ready(graph: DependencyView, finality_idx: TxId)
    requires
        graph.states.len() == graph.affects.len(),
        graph.states.len() <= usize::MAX,
        0 <= graph.index,
        graph.reachable(),
    ensures
        graph.next_batch(finality_idx).len() == 0 <==> (forall|t: int|
            0 <= t < graph.states.len() ==> !(#[trigger] graph.states[t]).ready()),
        graph.next_batch(finality_idx).len() > 0 ==> {
            let first = graph.next_batch(finality_idx)[0];
            &&& first < graph.states.len()
            &&& graph.states[first as int].ready()
            &&& forall|t: int| 0 <= t < first ==> !(#[trigger] graph.states[t]).ready()
        },
{
    lemma_first_ready(graph.states, graph.index);
    let first = first_ready(graph.states, graph.index);
    if first < graph.states.len() {
        lemma_chain(graph, first);
    }
}

/// Releasing dependents keeps the links mutual and leaves no ready transaction behind the search
/// position.
pub proof fn law_release_preserves_soundness(
    before: DependencyView,
    txid: TxId,
    distance: usize,
    after: DependencyView,
)
    requires
        before.states.len() == before.affects.len(),
        before.states.len() <= usize::MAX,
        txid < before.states.len(),
        before.linked(),
        before.reachable(),
        before.released(txid, distance, after),
    ensures
        after.linked(),
        after.reachable(),
{
    assert forall|d: int, t: TxId| 0 <= d < after.states.len() implies (
    #[trigger] after.affects[d].contains(t) <==> (d < t < after.states.len()
        && after.states[t as int].dependency == Some(d as usize))) by {
        assert(before.affects[d].contains(t) <==> (d < t < before.states.len()
            && before.states[t as int].dependency == Some(d as usize)));
        assert(before.affects[txid as int].contains(t) <==> (txid < t < before.states.len()
            && before.states[t as int].dependency == Some(txid)));
    }
    assert forall|t: int|
        0 <= t < after.states.len() && (#[trigger] after.states[t]).ready() implies after.index
        <= t by {
        if !before.states[t].ready() {
            assert(before.readies(txid, distance, t as usize));
        } else {
            assert(before.index <= t);
        }
    }
}

/// Putting a handed-out transaction back behind an earlier one keeps the links mutual and leaves
/// no ready transaction behind the search position.
pub proof fn law_add_preserves_soundness(
    before: DependencyView,
    txid: TxId,
    dep_id: Option<TxId>,
)
    requires
        before.states.len() == before.affects.len(),
        before.states.len() <= usize::MAX,
        txid < before.states.len(),
        !before.states[txid as int].onboard,
        before.states[txid as int].dependency is None,
        dep_id matches Some(dep) ==> dep < txid,
        before.linked(),
        before.reachable(),
    ensures
        before.added(txid, dep_id).linked(),
        before.added(txid, dep_id).reachable(),
        before.added(txid, dep_id).states[txid as int].onboard,
{
    let after = before.added(txid, dep_id);
    assert forall|d: int, t: TxId| 0 <= d < after.states.len() implies (
    #[trigger] after.affects[d].contains(t) <==> (d < t < after.states.len()
        && after.states[t as int].dependency == Some(d as usize))) by {
        assert(before.affects[d].contains(t) <==> (d < t < before.states.len()
            && before.states[t as int].dependency == Some(d as usize)));
    }
    assert forall|t: int|
        0 <= t < after.states.len() && (#[trigger] after.states[t]).ready() implies after.index
        <= t by {
        if let Some(dep) = dep_id {
            assert(before.affects[dep as int].contains(txid) <==> (dep < txid
                && before.states[txid as int].dependency == Some(dep)));
        }
        if t != txid {
            if before.states[t].ready() {
                assert(before.index <= t);
            }
        }
    }
}

/// In a linked graph every dependent lies within reach of the release operations.
pub proof fn law_linked_dependents_are_in_range(graph: DependencyView, txid: TxId)
    requires
        graph.states.len() <= usize::MAX,
        txid < graph.states.len(),
        graph.linked(),
    ensures
        graph.dependents_in_range(txid),
{
}

impl TxDependency {
    /// The representation is consistent: one state and one set of dependents per transaction, and
    /// the waiting counter is exact.
    pub closed spec fn wf(&self) -> bool {
        &&& self.dependent_state.len() == self.num_txs
        &&& self.affect_txs.len() == self.num_txs
        &&& self.num_onboard == onboard_count(self.dependent_state@)
    }

    /// The number of transactions waiting to be handed out.
    pub closed spec fn waiting(&self) -> int {
        self.num_onboard as int
    }

    /// What the representation invariant says about the view.
    pub broadcast proof fn lemma_wf(&self)
        requires
            #[trigger] self.wf(),
        ensures
            self@.states.len() == self@.affects.len(),
            self@.states.len() <= usize::MAX,
            0 <= self@.index <= usize::MAX,
            self.waiting() == onboard_count(self@.states),
    {
    }

    /// A graph without any dependency: every transaction is ready.
    pub fn new(num_txs: usize) -> (graph: Self)
        ensures
            graph.wf(),
            graph@ == (DependencyView {
                states: Seq::new(
                    num_txs as nat,
                    |t: int|
                        DependentState { onboard: true, dynamic: false, dependency: None },
                ),
                affects: Seq::new(num_txs as nat, |d: int| Set::<TxId>::empty()),
                index: 0,
            }),
    {
        let mut dependent_state: Vec<DependentState> = Vec::new();
        let mut affect_txs: Vec<AHashSet<TxId>> = Vec::new();
        let mut t: usize = 0;
        while t < num_txs
            invariant
                t <= num_txs,
                dependent_state.len() == t,
                affect_txs.len() == t,
                forall|i: int|
                    0 <= i < t ==> #[trigger] dependent_state@[i] == (DependentState {
                        onboard: true,
                        dynamic: false,
                        dependency: None,
                    }),
                forall|i: int|
                    0 <= i < t ==> crate::tx_set::members(#[trigger] affect_txs@[i]) == Set::<
                        TxId,
                    >::empty(),
            decreases num_txs - t,
        {
            dependent_state.push(DependentState::default());
            affect_txs.push(set_new());
            t = t + 1;
        }
        proof {
            lemma_count_all(dependent_state@);
        }
        let graph = TxDependency {
            num_txs,
            dependent_state,
            affect_txs,
            num_onboard: num_txs,
            index: 0,
        };
        assert(graph@.affects =~= Seq::new(num_txs as nat, |d: int| Set::<TxId>::empty()));
        graph
    }

    /// A graph from known dependencies, one entry of each list per transaction.
    pub fn create(dependent_tx: Vec<Option<TxId>>, affect_txs: Vec<AHashSet<TxId>>) -> (graph: Self)
        requires
            dependent_tx.len() == affect_txs.len(),
        ensures
            graph.wf(),
            graph@ == (DependencyView {
                states: Seq::new(
                    dependent_tx@.len(),
                    |t: int|
                        DependentState {
                            onboard: true,
                            dynamic: false,
                            dependency: dependent_tx@[t],
                        },
                ),
                affects: affect_txs@.map_values(
                    |set: AHashSet<TxId>| crate::tx_set::members(set),
                ),
                index: 0,
            }),
    {
        let num_txs: usize = dependent_tx.len();
        let mut dependent_state: Vec<DependentState> = Vec::new();
        let mut t: usize = 0;
        while t < num_txs
            invariant
                t <= num_txs,
                num_txs == dependent_tx.len(),
                dependent_state.len() == t,
                forall|i: int|
                    0 <= i < t ==> #[trigger] dependent_state@[i] == (DependentState {
                        onboard: true,
                        dynamic: false,
                        dependency: dependent_tx@[i],
                    }),
            decreases num_txs - t,
        {
            dependent_state.push(
                DependentState { onboard: true, dynamic: false, dependency: dependent_tx[t] },
            );
            t = t + 1;
        }
        proof {
            lemma_count_all(dependent_state@);
        }
        TxDependency { num_txs, dependent_state, affect_txs, num_onboard: num_txs, index: 0 }
    }

    /// Takes `txid` out of the waiting transactions and out of its dependency.
    fn hand_out(&mut self, txid: TxId)
        requires
            old(self).wf(),
            txid < old(self)@.states.len(),
            old(self)@.states[txid as int].onboard,
        ensures
            final(self).wf(),
            final(self)@ == (DependencyView {
                states: old(self)@.states.update(
                    txid as int,
                    DependentState {
                        onboard: false,
                        dependency: None,
                        ..old(self)@.states[txid as int]
                    },
                ),
                ..old(self)@
            }),
    {
        let state = self.dependent_state[txid];
        let updated = DependentState { onboard: false, dynamic: state.dynamic, dependency: None };
        proof {
            lemma_count_update(self.dependent_state@, txid as int, updated);
        }
        self.dependent_state.set(txid, updated);
        self.num_onboard = self.num_onboard - 1;
    }

    /// Removes `member` from the dependents of `txid`.
    fn unlink(&mut self, txid: TxId, member: TxId)
        requires
            old(self).wf(),
            txid < old(self)@.states.len(),
        ensures
            final(self).wf(),
            final(self)@ == (DependencyView {
                affects: old(self)@.affects.update(
                    txid as int,
                    old(self)@.affects[txid as int].remove(member),
                ),
                ..old(self)@
            }),
    {
        let ghost before = self@;
        set_remove(&mut self.affect_txs[txid], member);
        assert(self@.affects =~= before.affects.update(
            txid as int,
            before.affects[txid as int].remove(member),
        ));
    }

    /// Hands out the direct successors of `start`, which was handed out already.
    fn extend_chain(&mut self, start: TxId, txs: &mut Vec<TxId>)
        requires
            old(self).wf(),
            start < old(self)@.states.len(),
            !old(self)@.states[start as int].onboard,
            old(self)@.states[start as int].dependency is None,
        ensures
            final(self).wf(),
            ({
                let before = old(self)@;
                let end = before.chain_end(start as int);
                &&& final(txs)@ == old(txs)@ + Seq::new(
                    (end - start - 1) as nat,
                    |i: int| (start + 1 + i) as usize,
                )
                &&& final(self)@ == (DependencyView {
                    index: before.index,
                    ..before.handed_out(start as int, end)
                })
            }),
    {
        let ghost before = self@;
        let ghost end = before.chain_end(start as int);
        let ghost head = txs@;
        let mut continuous: usize = start;
        assert(self@ =~= (DependencyView {
            index: before.index,
            ..before.handed_out(start as int, continuous + 1)
        }));
        while continuous < self.num_txs - 1
            invariant
                self.wf(),
                start <= continuous < self@.states.len(),
                !before.states[start as int].onboard,
                before.states[start as int].dependency is None,
                before.states.len() == self@.states.len(),
                before.affects.len() == self@.states.len(),
                end == before.chain_end(start as int),
                before.chain_end(continuous as int) == end,
                self@ == (DependencyView {
                    index: before.index,
                    ..before.handed_out(start as int, continuous + 1)
                }),
                txs@ == head + Seq::new(
                    (continuous - start) as nat,
                    |i: int| (start + 1 + i) as usize,
                ),
            ensures
                self.wf(),
                before.chain_end(continuous as int) == end,
                !before.continues(continuous + 1),
            decreases self.num_txs - continuous,
        {
            let next: usize = continuous + 1;
            let state = self.dependent_state[next];
            let linked: bool = set_contains(&self.affect_txs[continuous], next);
            assert(self@.affects[continuous as int] == before.affects[continuous as int]);
            assert(self@.states[next as int] == before.states[next as int]);
            let waits_for_previous: bool = match state.dependency {
                Some(dep) => dep == continuous,
                None => false,
            };
            if linked && waits_for_previous && state.onboard {
                txs.push(next);
                self.unlink(continuous, next);
                self.hand_out(next);
                continuous = next;
                assert(self@ =~= (DependencyView {
                    index: before.index,
                    ..before.handed_out(start as int, continuous + 1)
                }));
                assert(txs@ =~= head + Seq::new(
                    (continuous - start) as nat,
                    |i: int| (start + 1 + i) as usize,
                ));
            } else {
                break;
            }
        }
    }

    /// Hands out the first ready transaction at or after the search position. If it is the
    /// transaction at `finality_idx`, the linear chain of its direct successors comes along, so
    /// that one worker runs the whole critical path.
    pub fn next(&mut self, finality_idx: TxId) -> (txs: Vec<TxId>)
        requires
            old(self).wf(),
        ensures
            final(self).wf(),
            txs@ == old(self)@.next_batch(finality_idx),
            final(self)@ == old(self)@.after_next(finality_idx),
    {
        let mut txs: Vec<TxId> = Vec::new();
        let ghost before = self@;
        let ghost first = first_ready(before.states, before.index);
        let ghost end = before.batch_end(first, finality_idx);
        while self.index < self.num_txs
            invariant_except_break
                self.wf(),
                txs@.len() == 0,
                self@.states == before.states,
                self@.affects == before.affects,
                first == first_ready(before.states, self@.index),
                before.index <= self@.index,
                self@.index <= before.states.len() || self@.index == before.index,
                end == before.batch_end(first, finality_idx),
            ensures
                self.wf(),
                if first >= before.states.len() {
                    &&& txs@.len() == 0
                    &&& self@.states == before.states
                    &&& self@.affects == before.affects
                    &&& self@.index == if before.index > before.states.len() {
                        before.index
                    } else {
                        before.states.len() as int
                    }
                } else {
                    &&& txs@ == Seq::new((end - first) as nat, |i: int| (first + i) as usize)
                    &&& self@ == before.handed_out(first, end)
                },
            decreases self.num_txs - self.index,
        {
            let index: usize = self.index;
            self.index = index + 1;
            let state = self.dependent_state[index];
            if state.onboard && state.dependency.is_none() {
                assert(first == index);
                txs.push(index);
                self.hand_out(index);
                assert(self@ =~= before.handed_out(first, first + 1));
                if index == finality_idx {
                    let ghost issued = self@;
                    let ghost head = txs@;
                    proof {
                        lemma_chain(before, first);
                        lemma_chain(issued, first);
                        lemma_same_chain(before, issued, first);
                    }
                    self.extend_chain(index, &mut txs);
                    assert(self@ =~= before.handed_out(first, end));
                    assert(txs@ =~= Seq::new((end - first) as nat, |i: int| (first + i) as usize));
                }
                break;
            }
        }
        txs
    }

    /// Releases the dependents of `txid` that are static or at least `distance` ahead of it.
    fn remove(&mut self, txid: TxId, distance: usize)
        requires
            old(self).wf(),
            txid < old(self)@.states.len(),
            old(self)@.dependents_in_range(txid),
        ensures
            final(self).wf(),
            old(self)@.released(txid, distance, final(self)@),
    {
        let ghost before = self@;
        let items: Vec<TxId> = set_items(&self.affect_txs[txid]);
        let mut i: usize = 0;
        assert(self@.affects[txid as int] =~= before.affects[txid as int].filter(
            |t: TxId| !(before.releases(txid, distance, t) && seen(items@, 0, t)),
        ));
        while i < items.len()
            invariant
                self.wf(),
                i <= items.len(),
                txid < before.states.len(),
                before.states.len() == self@.states.len(),
                before.affects.len() == self@.states.len(),
                before.dependents_in_range(txid),
                items@.no_duplicates(),
                forall|t: TxId| #[trigger]
                    items@.contains(t) <==> before.affects[txid as int].contains(t),
                forall|t: int|
                    0 <= t < before.states.len() ==> #[trigger] self@.states[t] == (if before.releases(
                        txid,
                        distance,
                        t as usize,
                    ) && seen(items@, i as int, t as usize) && before.states[t].dependency == Some(
                        txid,
                    ) {
                        DependentState { dependency: None, ..before.states[t] }
                    } else {
                        before.states[t]
                    }),
                self@.affects == before.affects.update(
                    txid as int,
                    before.affects[txid as int].filter(
                        |t: TxId|
                            !(before.releases(txid, distance, t) && seen(items@, i as int, t)),
                    ),
                ),
                self@.index <= before.index,
                self@.index == before.index || before.readies(
                    txid,
                    distance,
                    self@.index as usize,
                ),
                forall|t: TxId| #[trigger]
                    before.readies(txid, distance, t) && seen(items@, i as int, t) ==> self@.index
                        <= t,
            decreases items.len() - i,
        {
            let tx: TxId = items[i];
            assert(items@.contains(tx));
            let state = self.dependent_state[tx];
            let ghost current = self@;
            assert forall|t: TxId| seen(items@, i + 1, t) <==> (seen(items@, i as int, t) || t
                == tx) by {
                if seen(items@, i + 1, t) {
                    let k = choose|k: int| 0 <= k < i + 1 && k < items@.len() && items@[k] == t;
                    assert(k < i || t == tx);
                }
                if t == tx {
                    assert(items@[i as int] == t);
                }
            }
            assert(!seen(items@, i as int, tx));
            if !state.dynamic || tx - txid >= distance {
                let waits: bool = match state.dependency {
                    Some(dep) => dep == txid,
                    None => false,
                };
                if waits {
                    let updated = DependentState {
                        onboard: state.onboard,
                        dynamic: state.dynamic,
                        dependency: None,
                    };
                    proof {
                        lemma_count_update(self.dependent_state@, tx as int, updated);
                    }
                    self.dependent_state.set(tx, updated);
                    if state.onboard && tx < self.index {
                        self.index = tx;
                    }
                }
                self.unlink(txid, tx);
                assert(self@.affects[txid as int] =~= before.affects[txid as int].filter(
                    |t: TxId| !(before.releases(txid, distance, t) && seen(items@, i + 1, t)),
                ));
                assert(self@.affects =~= before.affects.update(
                    txid as int,
                    before.affects[txid as int].filter(
                        |t: TxId|
                            !(before.releases(txid, distance, t) && seen(items@, i + 1, t)),
                    ),
                ));
            } else {
                assert(self@.affects[txid as int] =~= before.affects[txid as int].filter(
                    |t: TxId| !(before.releases(txid, distance, t) && seen(items@, i + 1, t)),
                ));
            }
            i = i + 1;
        }
        proof {
            assert forall|t: TxId| before.affects[txid as int].contains(t) implies seen(
                items@,
                i as int,
                t,
            ) by {
                assert(items@.contains(t));
            }
            assert(self@.states =~= before.released_states(txid, distance));
            assert(self@.affects[txid as int] =~= before.affects[txid as int].filter(
                |t: TxId| !before.releases(txid, distance, t),
            ));
            assert(self@.affects =~= before.affects.update(
                txid as int,
                before.affects[txid as int].filter(
                    |t: TxId| !before.releases(txid, distance, t),
                ),
            ));
        }
    }

    /// Releases dependents once `txid` has executed.
    pub fn remove_after_execution(&mut self, txid: TxId)
        requires
            old(self).wf(),
            txid < old(self)@.states.len(),
            old(self)@.dependents_in_range(txid),
        ensures
            final(self).wf(),
            old(self)@.released(txid, EXECUTE_DISTANCE, final(self)@),
    {
        self.remove(txid, EXECUTE_DISTANCE);
    }

    /// Releases dependents once `txid` was validated.
    pub fn remove_after_validation(&mut self, txid: TxId)
        requires
            old(self).wf(),
            txid < old(self)@.states.len(),
            old(self)@.dependents_in_range(txid),
        ensures
            final(self).wf(),
            old(self)@.released(txid, VALIDATION_DISTANCE, final(self)@),
    {
        self.remove(txid, VALIDATION_DISTANCE);
    }

    /// Releases every dependent once `txid` is committed.
    pub fn remove_after_commit(&mut self, txid: TxId)
        requires
            old(self).wf(),
            txid < old(self)@.states.len(),
            old(self)@.dependents_in_range(txid),
        ensures
            final(self).wf(),
            old(self)@.released(txid, 0, final(self)@),
            final(self)@.affects[txid as int] == Set::<TxId>::empty(),
    {
        self.remove(txid, 0);
        assert(self@.affects[txid as int] =~= Set::<TxId>::empty());
    }

    /// Puts `txid`, which was handed out, back to wait for `dep_id`, or for nothing. The
    /// dependency itself is scheduled again if it was handed out.
    pub fn add(&mut self, txid: TxId, dep_id: Option<TxId>)
        requires
            old(self).wf(),
            txid < old(self)@.states.len(),
            !old(self)@.states[txid as int].onboard,
            old(self)@.states[txid as int].dependency is None,
            dep_id matches Some(dep) ==> {
                &&& dep < old(self)@.states.len()
                &&& dep != txid
                &&& old(self)@.affects[dep as int].contains(txid)
                    ==> old(self)@.states[dep as int].onboard
            },
        ensures
            final(self).wf(),
            final(self)@ == old(self)@.added(txid, dep_id),
    {
        let ghost before = self@;
        let state = self.dependent_state[txid];
        match dep_id {
            Some(dep) => {
                let dep_state = self.dependent_state[dep];
                let waiting = DependentState {
                    onboard: true,
                    dynamic: true,
                    dependency: Some(dep),
                };
                proof {
                    lemma_count_update(self.dependent_state@, txid as int, waiting);
                    lemma_count_bound(self.dependent_state@.update(txid as int, waiting));
                }
                self.dependent_state.set(txid, waiting);
                self.num_onboard = self.num_onboard + 1;
                if set_insert(&mut self.affect_txs[dep], txid) {
                    if !dep_state.onboard {
                        let rescheduled = DependentState {
                            onboard: true,
                            dynamic: dep_state.dynamic,
                            dependency: dep_state.dependency,
                        };
                        proof {
                            lemma_count_update(self.dependent_state@, dep as int, rescheduled);
                            lemma_count_bound(
                                self.dependent_state@.update(dep as int, rescheduled),
                            );
                        }
                        self.dependent_state.set(dep, rescheduled);
                        self.num_onboard = self.num_onboard + 1;
                    }
                    if dep_state.dependency.is_none() && dep < self.index {
                        self.index = dep;
                    }
                }
                assert(self@.states =~= before.added(txid, dep_id).states);
                assert(self@.affects =~= before.added(txid, dep_id).affects);
            },
            None => {
                let waiting = DependentState {
                    onboard: true,
                    dynamic: state.dynamic,
                    dependency: state.dependency,
                };
                proof {
                    lemma_count_update(self.dependent_state@, txid as int, waiting);
                    lemma_count_bound(self.dependent_state@.update(txid as int, waiting));
                }
                self.dependent_state.set(txid, waiting);
                self.num_onboard = self.num_onboard + 1;
                if txid < self.index {
                    self.index = txid;
                }
            },
        }
    }

    /// The state of every transaction, in block order.
    pub fn dependent_states(&self) -> (states: &Vec<DependentState>)
        ensures
            states@ == self@.states,
    {
        &self.dependent_state
    }

    /// The transactions registered as waiting for `txid`, each once, in no particular order.
    pub fn affected_by(&self, txid: TxId) -> (txs: Vec<TxId>)
        requires
            self.wf(),
            txid < self@.states.len(),
        ensures
            txs@.no_duplicates(),
            forall|t: TxId| #[trigger] txs@.contains(t) <==> self@.affects[txid as int].contains(t),
    {
        set_items(&self.affect_txs[txid])
    }

    /// The number of transactions waiting to be handed out.
    pub fn num_onboard(&self) -> (count: usize)
        requires
            self.wf(),
        ensures
            count == onboard_count(self@.states),
    {
        self.num_onboard
    }
}

/// Finishing a transaction frees those that are registered with it: all that were known to depend
/// on it from the start, and of those found meanwhile the ones that lie `distance` or further
/// ahead. A freed transaction is no longer registered; if it waited for this one it waits for
/// nobody any more, and is found by the next search. Every other one waits as before.
pub proof fn law_release_frees_dependents(
    before: DependencyView,
    txid: TxId,
    distance: usize,
    after: DependencyView,
    t: TxId,
)
    requires
        before.states.len() == before.affects.len(),
        before.states.len() <= usize::MAX,
        txid < before.states.len(),
        t < before.states.len(),
        before.released(txid, distance, after),
    ensures
        ({
            let old_state = before.states[t as int];
            let state = after.states[t as int];
            let registered = before.affects[txid as int].contains(t);
            let freed = registered && (!old_state.dynamic || t - txid >= distance);
            &&& after.states.len() == before.states.len()
            &&& after.affects.len() == before.affects.len()
            &&& state.onboard == old_state.onboard
            &&& state.dynamic == old_state.dynamic
            &&& state.dependency == if freed && old_state.dependency == Some(txid) {
                None
            } else {
                old_state.dependency
            }
            &&& after.affects[txid as int].contains(t) <==> registered && !freed
            &&& freed && old_state.dependency == Some(txid) && state.onboard ==> after.index <= t
            &&& forall|d: int|
                0 <= d < before.affects.len() && d != txid ==> #[trigger] after.affects[d]
                    == before.affects[d]
            &&& after.index <= before.index
            &&& after.index < before.index && 0 <= after.index < after.states.len()
                ==> after.states[after.index].onboard && after.states[after.index].dependency
                is None
        }),
{
    if before.states[t as int].dependency == Some(txid) && before.states[t as int].onboard
        && before.releases(txid, distance, t) {
        assert(before.readies(txid, distance, t));
    }
}

/// A transaction that is put back waits to be handed out: for `dep`, registered with it and marked
/// as found meanwhile, if one is given, in which case `dep` waits to be handed out as well; and for
/// nothing, found by the next search, if none is. Nothing changes for any other transaction.
pub proof fn law_transactions_are_put_back(
    before: DependencyView,
    txid: TxId,
    dep_id: Option<TxId>,
    t: TxId,
)
    requires
        before.states.len() == before.affects.len(),
        before.states.len() <= usize::MAX,
        txid < before.states.len(),
        t < before.states.len(),
        before.states[txid as int].dependency is None,
        dep_id matches Some(dep) ==> dep < before.states.len() && dep != txid,
    ensures
        ({
            let after = before.added(txid, dep_id);
            &&& after.states.len() == before.states.len()
            &&& after.states[txid as int].onboard
            &&& after.states[txid as int].dependency == dep_id
            &&& dep_id is Some ==> {
                &&& after.states[txid as int].dynamic
                &&& after.affects[dep_id->0 as int].contains(txid)
                &&& after.states[dep_id->0 as int].onboard
                &&& after.states[dep_id->0 as int].dependency
                    == before.states[dep_id->0 as int].dependency
                &&& before.states[dep_id->0 as int].dependency is None
                    && !before.affects[dep_id->0 as int].contains(txid) ==> after.index
                    <= dep_id->0
            }
            &&& dep_id is None ==> {
                &&& after.index <= txid
                &&& after.affects == before.affects
                &&& after.states[txid as int].dynamic == before.states[txid as int].dynamic
            }
            &&& t != txid && dep_id != Some(t) ==> after.states[t as int] == before.states[t as int]
            &&& forall|d: int, u: TxId|
                0 <= d < before.affects.len() && (dep_id != Some(d as usize) || u != txid) ==> (
                #[trigger] after.affects[d].contains(u)) == before.affects[d].contains(u)
            &&& after.index <= before.index
        }),
{
}

/// What a search hands out: the first transaction at or behind the search position that waits to be
/// handed out and waits for nobody, alone; or, if it is the first that is not final, together with
/// those that directly follow it and wait for nobody but the one before them, as far as that goes.
/// Whatever is handed out no longer waits, and nothing changes for the others.
pub proof fn law_search_hands_out_a_chain(graph: DependencyView, finality_idx: TxId)
    requires
        graph.states.len() == graph.affects.len(),
        graph.states.len() <= usize::MAX,
        0 <= graph.index,
    ensures
        ({
            let batch = graph.next_batch(finality_idx);
            let after = graph.after_next(finality_idx);
            let free = |t: int|
                graph.states[t].onboard && graph.states[t].dependency is None;
            &&& after.states.len() == graph.states.len()
            &&& batch.len() == 0 <==> (forall|t: int|
                graph.index <= t < graph.states.len() ==> !(#[trigger] free(t)))
            &&& batch.len() == 0 ==> after.states == graph.states && after.affects == graph.affects
            &&& batch.len() > 0 ==> {
                let first = batch[0] as int;
                let end = first + batch.len();
                &&& graph.index <= first < graph.states.len()
                &&& end <= graph.states.len()
                &&& free(first)
                &&& forall|t: int| graph.index <= t < first ==> !(#[trigger] free(t))
                &&& forall|i: int| 0 <= i < batch.len() ==> #[trigger] batch[i] == first + i
                &&& batch.len() > 1 ==> first == finality_idx
                &&& forall|t: int|
                    first < t < end ==> {
                        &&& (#[trigger] graph.states[t]).onboard
                        &&& graph.states[t].dependency == Some((t - 1) as usize)
                        &&& graph.affects[t - 1].contains(t as usize)
                        &&& !after.affects[t - 1].contains(t as usize)
                    }
                &&& first == finality_idx && end < graph.states.len() ==> !(
                graph.states[end].onboard && graph.states[end].dependency == Some(
                    (end - 1) as usize,
                ) && graph.affects[end - 1].contains(end as usize))
                &&& forall|d: int, u: TxId|
                    0 <= d < graph.affects.len() && !(first <= d < end - 1 && u == d + 1) ==> (
                    #[trigger] after.affects[d].contains(u)) == graph.affects[d].contains(u)
                &&& forall|t: int|
                    first <= t < end ==> !(#[trigger] after.states[t]).onboard
                        && after.states[t].dependency is None
                &&& forall|t: int|
                    0 <= t < graph.states.len() && !(first <= t < end) ==> #[trigger] after.states[t]
                        == graph.states[t]
                &&& after.index == first + 1
            }
        }),
{
    let first = first_ready(graph.states, graph.index);
    let free = |t: int| graph.states[t].onboard && graph.states[t].dependency is None;
    lemma_first_ready(graph.states, graph.index);
    assert forall|t: int| 0 <= t < graph.states.len() implies #[trigger] free(t)
        == graph.states[t].ready() by {}
    if first < graph.states.len() {
        assert(free(first));
        lemma_chain(graph, first);
        let end = graph.batch_end(first, finality_idx);
        assert(forall|t: int| first < t < end ==> #[trigger] graph.continues(t));
        assert forall|t: int| graph.index <= t < first implies !(#[trigger] free(t)) by {
            assert(!graph.states[t].ready());
        }
        assert forall|t: int| first < t < end implies {
            &&& (#[trigger] graph.states[t]).onboard
            &&& graph.states[t].dependency == Some((t - 1) as usize)
            &&& graph.affects[t - 1].contains(t as usize)
        } by {
            assert(graph.continues(t));
        }
    } else {
        assert forall|t: int| graph.index <= t < graph.states.len() implies !(#[trigger] free(
            t,
        )) by {
            assert(!graph.states[t].ready());
        }
    }
}

/// The count of the transactions that wait to be handed out is the number of states that say so.
pub proof fn law_waiting_transactions_are_counted(states: Seq<DependentState>)
    ensures
        onboard_count(states) == states.filter(|state: DependentState| state.onboard).len(),
        onboard_count(states) == 0 <==> forall|t: int|
            0 <= t < states.len() ==> !(#[trigger] states[t]).onboard,
    decreases states.len(),
{
    reveal(Seq::filter);
    if states.len() > 0 {
        let rest = states.drop_last();
        law_waiting_transactions_are_counted(rest);
        assert(states[states.len() - 1] == states.last());
        if forall|t: int| 0 <= t < rest.len() ==> !(#[trigger] rest[t]).onboard {
            assert forall|t: int| 0 <= t < states.len() - 1 implies !(
            #[trigger] states[t]).onboard by {
                assert(rest[t] == states[t]);
            }
        } else {
            let t = choose|t: int| 0 <= t < rest.len() && (#[trigger] rest[t]).onboard;
            assert(states[t].onboard);
        }
    }
}

} // verus!
