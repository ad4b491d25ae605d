use grevm::wait::{
    BeginPark, Notify, WaitAction, WaitSlot, WaitState, ARMED, IDLE, PARKED,
};

/// One bounded wait on a slot; `event` runs after each check of the predicate, and the return
/// value tells whether the consumer slept and whether it was notified.
fn wait_while(
    slot: &mut WaitSlot,
    blocked: &mut dyn FnMut(&mut WaitSlot) -> bool,
    asleep: &mut dyn FnMut(&mut WaitSlot),
) -> Option<bool> {
    slot.arm();
    let first = blocked(slot);
    if slot.first_check(first) == WaitAction::Return {
        return None;
    }
    let second = blocked(slot);
    if slot.second_check(second) != WaitAction::Park {
        return None;
    }
    asleep(slot);
    Some(slot.finish_wait())
}

#[test]
fn notification_between_arm_and_park_is_not_lost() {
    let mut slot = WaitSlot::new();
    slot.register_current_thread();

    let slept = wait_while(
        &mut slot,
        &mut |slot| {
            slot.notify();
            true
        },
        &mut |_| {},
    );
    assert_eq!(slept, None);
    assert_eq!(slot.state.get(), IDLE);
}

#[test]
fn notification_wakes_a_parked_consumer() {
    let mut slot = WaitSlot::new();
    slot.register_current_thread();
    let mut woken = false;
    let slept = wait_while(&mut slot, &mut |_| true, &mut |slot| {
        assert_eq!(slot.state.get(), PARKED);
        woken = slot.notify();
    });
    assert!(woken);
    assert_eq!(slept, Some(true));
    assert_eq!(slot.state.get(), IDLE);
}

#[test]
fn timeout_restores_idle_state_and_slot_can_be_reused() {
    let mut slot = WaitSlot::new();
    slot.register_current_thread();

    assert_eq!(wait_while(&mut slot, &mut |_| true, &mut |_| {}), Some(false));
    assert_eq!(slot.state.get(), IDLE);

    assert_eq!(wait_while(&mut slot, &mut |_| true, &mut |_| {}), Some(false));
    assert_eq!(slot.state.get(), IDLE);

    slot.arm();
    slot.notify();
    assert_eq!(slot.second_check(true), WaitAction::Return);
    assert_eq!(slot.state.get(), IDLE);
}

#[test]
fn notification_before_registration_is_coalesced_by_the_predicate() {
    let mut slot = WaitSlot::new();
    let aborted = true;

    assert!(!slot.notify());
    slot.register_current_thread();
    let slept = wait_while(&mut slot, &mut |_| !aborted, &mut |_| {});

    assert_eq!(slept, None);
    assert_eq!(slot.state.get(), IDLE);
}

#[test]
fn arm_notify_park_protocol_never_loses_a_wakeup() {
    // Every interleaving of the consumer's four steps with the producer's two.
    for cleared_before in 0..5 {
        for notified_before in cleared_before..5 {
            let mut state = WaitState::new(IDLE);
            let mut blocked = true;
            let mut wake = false;
            let mut parked = false;
            let mut returned = false;
            for step in 0..5 {
                if step == cleared_before {
                    blocked = false;
                }
                if step == notified_before && state.notify() == Notify::Wake {
                    wake = true;
                }
                if returned {
                    continue;
                }
                match step {
                    0 => state.arm(),
                    1 | 2 if !blocked => {
                        state.cancel();
                        returned = true;
                    }
                    3 => {
                        parked = state.begin_park() == BeginPark::Park;
                        returned = true;
                    }
                    _ => {}
                }
            }
            if parked {
                assert!(wake, "a parked waiter must be explicitly woken");
            }
            assert_eq!(state.get(), IDLE);
        }
    }
}

#[test]
fn an_armed_wait_is_cancelled_without_a_wakeup() {
    let mut state = WaitState::new(IDLE);
    state.arm();
    assert_eq!(state.get(), ARMED);
    assert_eq!(state.notify(), Notify::Coalesced);
    assert_eq!(state.begin_park(), BeginPark::Notified);

    state.arm();
    assert_eq!(state.begin_park(), BeginPark::Park);
    assert_eq!(state.notify(), Notify::Wake);
    assert!(state.finish_park());

    state.arm();
    assert_eq!(state.begin_park(), BeginPark::Park);
    assert!(!state.finish_park());
    assert_eq!(state.get(), IDLE);
}
