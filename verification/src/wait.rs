//! The arm / park / notify protocol by which a scheduler role waits for progress.

use vstd::prelude::*;

verus! {

/// Nobody waits.
pub const IDLE: u8 = 0;

/// The consumer announced that it is about to wait.
pub const ARMED: u8 = 1;

/// The consumer sleeps until it is unparked.
pub const PARKED: u8 = 2;

/// What a notification did.
#[derive(Debug, Clone, Copy, PartialEq, Eq, Structural)]
pub enum Notify {
    /// Nobody slept; a pending wait, if any, was cancelled.
    Coalesced,
    /// The consumer sleeps and has to be unparked.
    Wake,
}

/// What the consumer has to do after its last check.
#[derive(Debug, Clone, Copy, PartialEq, Eq, Structural)]
pub enum BeginPark {
    /// A notification arrived in between; check again instead of sleeping.
    Notified,
    /// Go to sleep.
    Park,
}

/// The three-valued state shared by the consumer and its notifiers.
#[derive(Debug, Clone, Copy, PartialEq, Eq, Structural)]
pub struct WaitState {
    /// [`IDLE`], [`ARMED`] or [`PARKED`].
    pub value: u8,
}

impl WaitState {
    /// The state after a notification.
    pub open spec fn notified(self) -> WaitState {
        WaitState { value: IDLE }
    }

    /// The state after a wait was announced.
    pub open spec fn armed(self) -> WaitState {
        WaitState { value: ARMED }
    }

    /// The state after an announcement was taken back.
    pub open spec fn cancelled(self) -> WaitState {
        WaitState { value: IDLE }
    }

    /// The state after the consumer tried to go to sleep.
    pub open spec fn parking(self) -> WaitState {
        WaitState {
            value: if self.value == ARMED {
                PARKED
            } else {
                IDLE
            },
        }
    }

    /// A state that starts at `value`.
    pub fn new(value: u8) -> (state: Self)
        ensures
            state.value == value,
    {
        WaitState { value }
    }

    /// Announces a wait.
    pub fn arm(&mut self)
        requires
            old(self).value == IDLE,
        ensures
            *final(self) == old(self).armed(),
    {
        self.value = ARMED;
    }

    /// Takes the announcement back.
    pub fn cancel(&mut self)
        requires
            old(self).value != PARKED,
        ensures
            *final(self) == old(self).cancelled(),
    {
        self.value = IDLE;
    }

    /// Cancels an announced wait or ends a sleep.
    pub fn notify(&mut self) -> (notified: Notify)
        ensures
            *final(self) == old(self).notified(),
            notified == (if old(self).value == PARKED {
                Notify::Wake
            } else {
                Notify::Coalesced
            }),
    {
        let previous: u8 = self.value;
        self.value = IDLE;
        if previous == PARKED {
            Notify::Wake
        } else {
            Notify::Coalesced
        }
    }

    /// Turns an announced wait into a sleep unless a notification cancelled it.
    pub fn begin_park(&mut self) -> (begin: BeginPark)
        requires
            old(self).value == ARMED || old(self).value == IDLE,
        ensures
            begin == (if old(self).value == ARMED {
                BeginPark::Park
            } else {
                BeginPark::Notified
            }),
            *final(self) == old(self).parking(),
    {
        if self.value == ARMED {
            self.value = PARKED;
            BeginPark::Park
        } else {
            BeginPark::Notified
        }
    }

    /// Restores the idle state after a sleep, returning whether a notifier won the race.
    pub fn finish_park(&mut self) -> (notified: bool)
        requires
            old(self).value == PARKED || old(self).value == IDLE,
        ensures
            final(self).value == IDLE,
            notified == (old(self).value == IDLE),
    {
        let previous: u8 = self.value;
        self.value = IDLE;
        previous == IDLE
    }

    /// The raw state.
    pub fn get(&self) -> (value: u8)
        ensures
            value == self.value,
    {
        self.value
    }
}

/// What the consumer does next in a bounded wait.
#[derive(Debug, Clone, Copy, PartialEq, Eq, Structural)]
pub enum WaitAction {
    /// The wait is over.
    Return,
    /// Yield the time slice and check the predicate again.
    Yield,
    /// Sleep until unparked or timed out, then call [`WaitSlot::finish_wait`].
    Park,
}

/// A single-consumer, coalescing notification slot.
///
/// The consumer moves `IDLE -> ARMED`, rechecks its predicate, and only then moves
/// `ARMED -> PARKED`. A notification observed in `ARMED` cancels the pending wait without leaving
/// an unpark token; a notification observed in `PARKED` wakes the sleeping thread.
#[derive(Debug, Clone, Copy, PartialEq, Eq, Structural)]
pub struct WaitSlot {
    /// Whether the consumer thread is known.
    pub registered: bool,
    /// The protocol state.
    pub state: WaitState,
}

impl WaitSlot {
    /// A consumer sleeps only after it registered.
    pub open spec fn wf(self) -> bool {
        &&& self.state.value == IDLE || self.state.value == ARMED || self.state.value == PARKED
        &&& self.state.value == PARKED ==> self.registered
    }

    /// An idle slot without a consumer.
    pub fn new() -> (slot: Self)
        ensures
            slot == (WaitSlot { registered: false, state: WaitState { value: IDLE } }),
            slot.wf(),
    {
        WaitSlot { registered: false, state: WaitState::new(IDLE) }
    }

    /// Makes the calling role the consumer of this slot.
    pub fn register_current_thread(&mut self)
        requires
            old(self).wf(),
            !old(self).registered,
        ensures
            *final(self) == (WaitSlot { registered: true, ..*old(self) }),
            final(self).wf(),
    {
        self.registered = true;
    }

    /// Announces a wait.
    pub fn arm(&mut self)
        requires
            old(self).registered,
            old(self).state.value == IDLE,
        ensures
            *final(self) == (WaitSlot { state: WaitState { value: ARMED }, ..*old(self) }),
            final(self).wf(),
    {
        self.state.arm();
    }

    /// Takes the announcement back.
    pub fn cancel(&mut self)
        requires
            old(self).state.value != PARKED,
        ensures
            *final(self) == (WaitSlot { state: WaitState { value: IDLE }, ..*old(self) }),
            final(self).wf(),
    {
        self.state.cancel();
    }

    /// The slot after a notification.
    pub open spec fn notified(self) -> WaitSlot {
        WaitSlot { state: self.state.notified(), ..self }
    }

    /// Cancels an announced wait or ends a sleep; `true` asks to unpark the registered thread.
    pub fn notify(&mut self) -> (wake: bool)
        requires
            old(self).wf(),
        ensures
            *final(self) == old(self).notified(),
            final(self).wf(),
            wake == (old(self).state.value == PARKED),
            wake ==> final(self).registered,
    {
        match self.state.notify() {
            Notify::Wake => true,
            Notify::Coalesced => false,
        }
    }

    /// First check of an armed wait: either the wait is over, or the caller yields once.
    pub fn first_check(&mut self, blocked: bool) -> (action: WaitAction)
        requires
            old(self).registered,
            old(self).state.value == ARMED || old(self).state.value == IDLE,
        ensures
            action == (if blocked {
                WaitAction::Yield
            } else {
                WaitAction::Return
            }),
            *final(self) == (if blocked {
                *old(self)
            } else {
                WaitSlot { state: WaitState { value: IDLE }, ..*old(self) }
            }),
            final(self).wf(),
    {
        if !blocked {
            self.cancel();
            return WaitAction::Return;
        }
        WaitAction::Yield
    }

    /// Second check of an armed wait: parks only if the predicate still holds and no notification
    /// arrived since the wait was armed.
    pub fn second_check(&mut self, blocked: bool) -> (action: WaitAction)
        requires
            old(self).registered,
            old(self).state.value == ARMED || old(self).state.value == IDLE,
        ensures
            action == (if blocked && old(self).state.value == ARMED {
                WaitAction::Park
            } else {
                WaitAction::Return
            }),
            final(self).registered == old(self).registered,
            final(self).state.value == (if blocked && old(self).state.value == ARMED {
                PARKED
            } else {
                IDLE
            }),
            final(self).wf(),
    {
        if blocked {
            match self.state.begin_park() {
                BeginPark::Park => WaitAction::Park,
                BeginPark::Notified => WaitAction::Return,
            }
        } else {
            self.cancel();
            WaitAction::Return
        }
    }

    /// Ends a sleep; `true` tells that a notifier won the race, so that a pending unpark token
    /// has to be consumed.
    pub fn finish_wait(&mut self) -> (notified: bool)
        requires
            old(self).state.value == PARKED || old(self).state.value == IDLE,
        ensures
            *final(self) == (WaitSlot { state: WaitState { value: IDLE }, ..*old(self) }),
            final(self).wf(),
            notified == (old(self).state.value == IDLE),
    {
        self.state.finish_park()
    }
}

/// Where the consumer stands in one bounded wait.
pub enum ConsumerPhase {
    /// Before announcing the wait.
    Start,
    /// Announced, before the first check.
    Armed,
    /// The predicate held once, before the second check.
    Checked,
    /// The predicate held twice, before going to sleep.
    Committed,
    /// Asleep.
    Parked,
    /// Back without having slept.
    Returned,
}

/// Where the producer stands.
pub enum ProducerPhase {
    /// The predicate still holds.
    Start,
    /// The predicate was cleared, before the notification.
    Cleared,
    /// The notification was delivered.
    Notified,
}

/// One consumer and one producer racing over a slot and the consumer's predicate.
pub struct WaitRace {
    /// The protocol state.
    pub state: WaitState,
    /// The consumer's predicate.
    pub blocked: bool,
    /// The consumer's position.
    pub consumer: ConsumerPhase,
    /// The producer's position.
    pub producer: ProducerPhase,
    /// The producer was told to unpark the consumer.
    pub woken: bool,
}

impl WaitRace {
    /// Both sides at the beginning.
    pub open spec fn start() -> WaitRace {
        WaitRace {
            state: WaitState { value: IDLE },
            blocked: true,
            consumer: ConsumerPhase::Start,
            producer: ProducerPhase::Start,
            woken: false,
        }
    }

    /// The consumer takes its next step.
    pub open spec fn consumer_steps(self) -> WaitRace {
        match self.consumer {
            ConsumerPhase::Start => WaitRace {
                state: self.state.armed(),
                consumer: ConsumerPhase::Armed,
                ..self
            },
            ConsumerPhase::Armed => if self.blocked {
                WaitRace { consumer: ConsumerPhase::Checked, ..self }
            } else {
                WaitRace {
                    state: self.state.cancelled(),
                    consumer: ConsumerPhase::Returned,
                    ..self
                }
            },
            ConsumerPhase::Checked => if self.blocked {
                WaitRace { consumer: ConsumerPhase::Committed, ..self }
            } else {
                WaitRace {
                    state: self.state.cancelled(),
                    consumer: ConsumerPhase::Returned,
                    ..self
                }
            },
            ConsumerPhase::Committed => WaitRace {
                state: self.state.parking(),
                consumer: if self.state.parking().value == PARKED {
                    ConsumerPhase::Parked
                } else {
                    ConsumerPhase::Returned
                },
                ..self
            },
            _ => self,
        }
    }

    /// The producer takes its next step.
    pub open spec fn producer_steps(self) -> WaitRace {
        match self.producer {
            ProducerPhase::Start => WaitRace {
                blocked: false,
                producer: ProducerPhase::Cleared,
                ..self
            },
            ProducerPhase::Cleared => WaitRace {
                state: self.state.notified(),
                producer: ProducerPhase::Notified,
                woken: self.state.value == PARKED,
                ..self
            },
            ProducerPhase::Notified => self,
        }
    }

    /// The race after the turns in `schedule`; `true` is a turn of the consumer.
    pub open spec fn run(schedule: Seq<bool>) -> WaitRace
        decreases schedule.len(),
    {
        if schedule.len() == 0 {
            WaitRace::start()
        } else {
            let before = WaitRace::run(schedule.drop_last());
            if schedule.last() {
                before.consumer_steps()
            } else {
                before.producer_steps()
            }
        }
    }

    /// What holds at every point of the race.
    spec fn inv(self) -> bool {
        &&& self.blocked == (self.producer is Start)
        &&& self.woken ==> self.producer is Notified && self.consumer is Parked
        &&& match self.consumer {
            ConsumerPhase::Start => self.state.value == IDLE,
            ConsumerPhase::Armed => self.state.value == ARMED || (self.state.value == IDLE
                && self.producer is Notified),
            ConsumerPhase::Checked | ConsumerPhase::Committed => self.state.value == (
            if self.producer is Notified {
                IDLE
            } else {
                ARMED
            }),
            ConsumerPhase::Parked => if self.producer is Notified {
                self.woken && self.state.value == IDLE
            } else {
                self.state.value == PARKED
            },
            ConsumerPhase::Returned => self.state.value == IDLE,
        }
    }

    /// The state invariant holds after every schedule.
    proof fn lemma_inv(schedule: Seq<bool>)
        ensures
            WaitRace::run(schedule).inv(),
        decreases schedule.len(),
    {
        if schedule.len() > 0 {
            WaitRace::lemma_inv(schedule.drop_last());
        }
    }
}

/// No wakeup is lost: in every interleaving of one bounded wait with one producer, a consumer
/// that went to sleep is explicitly woken by the completed notification, and once both are done
/// the slot is idle again.
pub proof fn law_no_lost_wakeup(schedule: Seq<bool>)
    ensures
        ({
            let race = WaitRace::run(schedule);
            &&& race.consumer is Parked && race.producer is Notified ==> race.woken
            &&& race.producer is Notified && (race.consumer is Parked || race.consumer is Returned)
                ==> race.state.value == IDLE
        }),
{
    WaitRace::lemma_inv(schedule);
}

/// A consumer that is still awake when the notification is complete does not go to sleep.
pub proof fn law_no_sleep_after_notification(schedule: Seq<bool>)
    requires
        WaitRace::run(schedule).producer is Notified,
        !(WaitRace::run(schedule).consumer is Parked),
    ensures
        !(WaitRace::run(schedule.push(true)).consumer is Parked),
{
    WaitRace::lemma_inv(schedule);
    assert(schedule.push(true).drop_last() =~= schedule);
}

/// What the steps of the protocol do to a slot: a notification leaves nobody waiting, whatever the
/// slot was; a consumer sleeps only if its announcement still stood when it tried to.
pub proof fn law_only_announced_waits_sleep(state: WaitState, slot: WaitSlot)
    ensures
        slot.notified().registered == slot.registered,
        slot.notified().state.value == 0,
        state.notified().value == 0,
        state.armed().value == 1,
        state.cancelled().value == 0,
        state.parking().value == 2 <==> state.value == 1,
        state.parking().value != 2 ==> state.parking().value == 0,
        state.armed().parking().value == 2,
        state.armed().notified().parking().value == 0,
        state.notified().notified() == state.notified(),
{
}

} // verus!
