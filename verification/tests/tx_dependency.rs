use ahash::AHashSet;
use grevm::model::DependencyUpdate;
use grevm::tx_dependency::{DependentState, TxDependency};

fn set(items: &[usize]) -> AHashSet<usize> {
    items.iter().copied().collect()
}

#[test]
fn independent_transactions_are_handed_out_in_block_order() {
    let mut graph = TxDependency::new(3);
    assert_eq!(graph.num_onboard(), 3);
    assert_eq!(graph.next(0), vec![0]);
    assert_eq!(graph.next(0), vec![1]);
    assert_eq!(graph.next(0), vec![2]);
    assert_eq!(graph.next(0), Vec::<usize>::new());
    assert_eq!(graph.num_onboard(), 0);
}

#[test]
fn a_chain_at_the_finality_head_is_handed_out_together() {
    let chain = || {
        TxDependency::create(
            vec![None, Some(0), Some(1), Some(1)],
            vec![set(&[1]), set(&[2, 3]), set(&[]), set(&[])],
        )
    };
    assert_eq!(chain().next(0), vec![0, 1, 2]);
    // Away from the head only the transaction itself is handed out.
    assert_eq!(chain().next(1), vec![0]);
}

#[test]
fn known_dependents_are_released_by_execution() {
    let mut graph = TxDependency::create(
        vec![None, Some(0), Some(0)],
        vec![set(&[1, 2]), set(&[]), set(&[])],
    );
    assert_eq!(graph.next(9), vec![0]);
    assert_eq!(graph.next(9), Vec::<usize>::new());
    graph.remove_after_execution(0);
    assert_eq!(graph.affected_by(0), Vec::<usize>::new());
    assert_eq!(graph.next(9), vec![1]);
    assert_eq!(graph.next(9), vec![2]);
}

#[test]
fn a_found_dependent_waits_for_distance_or_commit() {
    let mut graph = TxDependency::new(40);
    for txid in 0..40 {
        assert_eq!(graph.next(99), vec![txid]);
    }
    // Three dependents of transaction 0: near, validation-far and execution-far.
    graph.add(4, Some(0));
    graph.add(10, Some(0));
    graph.add(20, Some(0));
    let mut affected = graph.affected_by(0);
    affected.sort_unstable();
    assert_eq!(affected, vec![4, 10, 20]);
    // The dependency itself is scheduled again.
    assert_eq!(graph.next(99), vec![0]);

    graph.remove_after_execution(0);
    assert_eq!(graph.next(99), vec![20]);
    assert_eq!(graph.next(99), Vec::<usize>::new());
    graph.remove_after_validation(0);
    assert_eq!(graph.next(99), vec![10]);
    assert_eq!(graph.next(99), Vec::<usize>::new());
    graph.remove_after_commit(0);
    assert_eq!(graph.next(99), vec![4]);
    assert_eq!(graph.affected_by(0), Vec::<usize>::new());
}

#[test]
fn a_transaction_that_waits_for_nothing_is_handed_out_again() {
    let mut graph = TxDependency::new(2);
    assert_eq!(graph.next(0), vec![0]);
    assert_eq!(graph.next(0), vec![1]);
    graph.add(0, None);
    assert_eq!(graph.num_onboard(), 1);
    assert_eq!(graph.next(0), vec![0]);
    assert_eq!(
        graph.dependent_states()[0],
        DependentState { onboard: false, dynamic: false, dependency: None }
    );
}

#[test]
fn updates_follow_the_decisions_of_the_scheduler() {
    let mut graph = TxDependency::new(3);
    for txid in 0..3 {
        assert_eq!(graph.next(9), vec![txid]);
    }
    // A key transaction waits until everything before it is committed.
    graph.update(DependencyUpdate::KeyTx(2), 0);
    assert_eq!(graph.dependent_states()[2].dependency, Some(1));
    // It waits already, so another update changes nothing.
    graph.update(DependencyUpdate::Add(2, None), 0);
    assert_eq!(graph.dependent_states()[2].dependency, Some(1));
    graph.update(DependencyUpdate::Release(1), 0);
    assert_eq!(graph.dependent_states()[2].dependency, Some(1));
    graph.update(DependencyUpdate::Commit(1), 2);
    assert_eq!(graph.dependent_states()[2].dependency, None);
    assert_eq!(graph.next(9), vec![1]);
    assert_eq!(graph.next(9), vec![2]);
    // Once everything before it is committed, a key transaction waits for nothing.
    graph.update(DependencyUpdate::KeyTx(2), 2);
    assert_eq!(graph.next(9), vec![2]);
    graph.update(DependencyUpdate::Add(2, Some(0)), 2);
    assert_eq!(graph.affected_by(0), vec![2]);
    graph.update(DependencyUpdate::Skip(0), 2);
    assert_eq!(graph.affected_by(0), vec![2]);
}
