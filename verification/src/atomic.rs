//! Work cursors and counters, each operation of which is one indivisible step.

use vstd::prelude::*;

verus! {

/// A read-only view of a cursor published by a single writer.
///
/// Keeping this view separate from the owning cursor prevents readers from accidentally acquiring
/// publication authority.
#[derive(Debug, Clone, Copy)]
pub struct PublishedCursorReader<'a>(&'a usize);

impl<'a> PublishedCursorReader<'a> {
    /// The published position.
    pub closed spec fn position(&self) -> usize {
        *self.0
    }

    /// A reader of `cursor`.
    pub fn new(cursor: &'a usize) -> (reader: Self)
        ensures
            reader.position() == *cursor,
    {
        PublishedCursorReader(cursor)
    }

    /// The published position.
    pub fn get(&self) -> (position: usize)
        ensures
            position == self.position(),
    {
        *self.0
    }
}

/// Claims the position under the cursor if it lies before `limit`.
pub fn claim_before(cursor: &mut usize, limit: usize) -> (claimed: Option<usize>)
    ensures
        claimed == (if *old(cursor) < limit {
            Some(*old(cursor))
        } else {
            None
        }),
        *final(cursor) == (if *old(cursor) < limit {
            *old(cursor) + 1
        } else {
            *old(cursor) as int
        }),
{
    let current: usize = *cursor;
    if current >= limit {
        return None;
    }
    *cursor = current + 1;
    Some(current)
}

/// Moves the cursor back to `value` if it is ahead of it, and returns where it was.
pub fn rewind(cursor: &mut usize, value: usize) -> (previous: usize)
    ensures
        previous == *old(cursor),
        *final(cursor) == (if value < *old(cursor) {
            value
        } else {
            *old(cursor)
        }),
{
    let previous: usize = *cursor;
    if value < previous {
        *cursor = value;
    }
    previous
}

/// A concurrently claimed cursor that can be rewound when earlier work becomes eligible again.
#[derive(Debug)]
pub struct RewindableCursor(usize);

impl View for RewindableCursor {
    type V = usize;

    closed spec fn view(&self) -> usize {
        self.0
    }
}

impl RewindableCursor {
    /// A cursor at `value`.
    pub fn new(value: usize) -> (cursor: Self)
        ensures
            cursor@ == value,
    {
        RewindableCursor(value)
    }

    /// The current position.
    pub fn get(&self) -> (position: usize)
        ensures
            position == self@,
    {
        self.0
    }

    /// Claims the current position if it lies before `limit`.
    pub fn claim_before(&mut self, limit: usize) -> (claimed: Option<usize>)
        ensures
            claimed == (CursorStep::Claim { limit }).claims(old(self)@ as int),
            final(self)@ == (CursorStep::Claim { limit }).moves(old(self)@ as int),
    {
        claim_before(&mut self.0, limit)
    }

    /// Rewind to `value`, returning the previous cursor position.
    pub fn rewind(&mut self, value: usize) -> (previous: usize)
        ensures
            previous == old(self)@,
            final(self)@ == (CursorStep::Rewind { value }).moves(old(self)@ as int),
    {
        rewind(&mut self.0, value)
    }
}

/// One operation on a [`RewindableCursor`].
pub enum CursorStep {
    /// Claim the current position if it lies before `limit`.
    Claim {
        /// The first position that must not be claimed.
        limit: usize,
    },
    /// Move back to `value`.
    Rewind {
        /// The position to be claimed again.
        value: usize,
    },
}

impl CursorStep {
    /// The position claimed when the step is taken at `cursor`.
    pub open spec fn claims(self, cursor: int) -> Option<usize> {
        match self {
            CursorStep::Claim { limit } => if cursor < limit {
                Some(cursor as usize)
            } else {
                None
            },
            CursorStep::Rewind { .. } => None,
        }
    }

    /// The position after the step is taken at `cursor`.
    pub open spec fn moves(self, cursor: int) -> int {
        match self {
            CursorStep::Claim { limit } => if cursor < limit {
                cursor + 1
            } else {
                cursor
            },
            CursorStep::Rewind { value } => if value < cursor {
                value as int
            } else {
                cursor
            },
        }
    }
}

/// The position of a cursor that started at `start` after the first `count` of `steps`.
pub open spec fn cursor_after(start: int, steps: Seq<CursorStep>, count: int) -> int
    decreases count,
{
    if count <= 0 {
        start
    } else {
        steps[count - 1].moves(cursor_after(start, steps, count - 1))
    }
}

/// What the step at `at` claims in a run of `steps` from `start`.
pub open spec fn claim_at(start: int, steps: Seq<CursorStep>, at: int) -> Option<usize> {
    steps[at].claims(cursor_after(start, steps, at))
}

/// In any interleaving of claims and rewinds, a position that the cursor stood at or before is
/// claimed again before the cursor passes it.
pub proof fn law_passed_positions_are_claimed(
    start: int,
    steps: Seq<CursorStep>,
    from: int,
    to: int,
    position: usize,
) -> (at: int)
    requires
        0 <= from <= to <= steps.len(),
        cursor_after(start, steps, from) <= position,
        cursor_after(start, steps, to) > position,
    ensures
        from <= at < to,
        claim_at(start, steps, at) == Some(position),
    decreases to - from,
{
    if cursor_after(start, steps, to - 1) > position {
        law_passed_positions_are_claimed(start, steps, from, to - 1, position)
    } else {
        to - 1
    }
}

/// A rewound position is reissued: after a rewind, however claims and further rewinds interleave,
/// the cursor gets past the position only by a claim of exactly that position.
pub proof fn law_rewound_position_is_reissued(
    start: int,
    steps: Seq<CursorStep>,
    rewound_at: int,
    to: int,
    value: usize,
) -> (at: int)
    requires
        0 <= rewound_at < to <= steps.len(),
        steps[rewound_at] == (CursorStep::Rewind { value }),
        cursor_after(start, steps, to) > value,
    ensures
        rewound_at < at < to,
        claim_at(start, steps, at) == Some(value),
{
    law_passed_positions_are_claimed(start, steps, rewound_at + 1, to, value)
}

/// Without rewinds no position is claimed twice.
pub proof fn law_claims_are_distinct_between_rewinds(
    start: int,
    steps: Seq<CursorStep>,
    first: int,
    second: int,
)
    requires
        0 <= start,
        0 <= first < second < steps.len(),
        forall|i: int| first <= i < second ==> (#[trigger] steps[i]) is Claim,
        claim_at(start, steps, first) is Some,
        claim_at(start, steps, second) is Some,
        0 <= cursor_after(start, steps, first) <= usize::MAX,
        cursor_after(start, steps, second) <= usize::MAX,
    ensures
        claim_at(start, steps, first)->0 < claim_at(start, steps, second)->0,
{
    lemma_claims_only_advance(start, steps, first + 1, second);
}

/// A run of claims never moves the cursor back.
proof fn lemma_claims_only_advance(start: int, steps: Seq<CursorStep>, from: int, to: int)
    requires
        0 <= from <= to <= steps.len(),
        forall|i: int| from <= i < to ==> (#[trigger] steps[i]) is Claim,
    ensures
        cursor_after(start, steps, from) <= cursor_after(start, steps, to),
    decreases to - from,
{
    if from < to {
        assert(steps[to - 1] is Claim);
        lemma_claims_only_advance(start, steps, from, to - 1);
    }
}

/// A low-contention work cursor whose internal position may transiently pass its limit.
///
/// Returned claims are always bounded. Overshoot is acceptable because this cursor is only a
/// scheduling hint; task state is synchronized separately.
#[derive(Debug)]
pub struct SpeculativeWorkCursor(usize);

impl View for SpeculativeWorkCursor {
    type V = usize;

    closed spec fn view(&self) -> usize {
        self.0
    }
}

/// The value that a wrapping counter has after adding `value`.
pub open spec fn wrapping_sum(counter: usize, value: usize) -> int {
    if counter + value > usize::MAX {
        counter + value - usize::MAX - 1
    } else {
        counter + value
    }
}

impl SpeculativeWorkCursor {
    /// A cursor at `value`.
    pub fn new(value: usize) -> (cursor: Self)
        ensures
            cursor@ == value,
    {
        SpeculativeWorkCursor(value)
    }

    /// The current position.
    pub fn get(&self) -> (position: usize)
        ensures
            position == self@,
    {
        self.0
    }

    /// Moves on by one position, whatever was observed before, and claims the position left
    /// behind if it lies before `limit`.
    pub fn advance(&mut self, limit: usize) -> (claimed: Option<usize>)
        ensures
            final(self)@ == wrapping_sum(old(self)@, 1),
            claimed == (if old(self)@ < limit {
                Some(old(self)@)
            } else {
                None
            }),
    {
        let claimed: usize = self.0;
        self.0 = claimed.wrapping_add(1);
        if claimed < limit {
            Some(claimed)
        } else {
            None
        }
    }

    /// Claims the current position if it lies before `limit`.
    pub fn claim_before(&mut self, limit: usize) -> (claimed: Option<usize>)
        ensures
            claimed == (if old(self)@ < limit {
                Some(old(self)@)
            } else {
                None
            }),
            final(self)@ == (if old(self)@ < limit {
                old(self)@ + 1
            } else {
                old(self)@ as int
            }),
    {
        if self.get() >= limit {
            return None;
        }
        self.advance(limit)
    }

    /// Moves the cursor back to `value` if it is ahead of it.
    pub fn rewind(&mut self, value: usize)
        ensures
            final(self)@ == (if value < old(self)@ {
                value
            } else {
                old(self)@
            }),
    {
        if value < self.0 {
            self.0 = value;
        }
    }
}

/// One step on a [`SpeculativeWorkCursor`]. A claim is two steps: it looks at the position, and
/// only if that lay before the limit it later moves on, wherever the cursor stands by then.
pub enum WorkStep {
    /// Look whether the position lies before `limit`.
    Look {
        /// The first position that must not be claimed.
        limit: usize,
    },
    /// Move on and claim the position left behind if it lies before `limit`.
    Advance {
        /// The first position that must not be claimed.
        limit: usize,
    },
    /// Move back to `value`.
    Rewind {
        /// The position to be claimed again.
        value: usize,
    },
}

impl WorkStep {
    /// The position claimed when the step is taken at `cursor`.
    pub open spec fn claims(self, cursor: int) -> Option<usize> {
        match self {
            WorkStep::Advance { limit } => if cursor < limit {
                Some(cursor as usize)
            } else {
                None
            },
            _ => None,
        }
    }

    /// The step ends a claim before `limit` without a position when it is taken at `cursor`.
    pub open spec fn refuses(self, cursor: int, limit: usize) -> bool {
        match self {
            WorkStep::Look { limit: bound } => bound == limit && cursor >= limit,
            WorkStep::Advance { limit: bound } => bound == limit && cursor >= limit,
            WorkStep::Rewind { .. } => false,
        }
    }

    /// The position after the step is taken at `cursor`.
    pub open spec fn moves(self, cursor: int) -> int {
        match self {
            WorkStep::Look { .. } => cursor,
            WorkStep::Advance { .. } => cursor + 1,
            WorkStep::Rewind { value } => if value < cursor {
                value as int
            } else {
                cursor
            },
        }
    }
}

/// The position of a work cursor that started at `start` after the first `count` of `steps`.
pub open spec fn work_after(start: int, steps: Seq<WorkStep>, count: int) -> int
    decreases count,
{
    if count <= 0 {
        start
    } else {
        steps[count - 1].moves(work_after(start, steps, count - 1))
    }
}

/// What the step at `at` claims in a run of `steps` from `start`.
pub open spec fn work_claim_at(start: int, steps: Seq<WorkStep>, at: int) -> Option<usize> {
    steps[at].claims(work_after(start, steps, at))
}

/// A position that is not the last one is moved on from without wrapping, so that
/// [`SpeculativeWorkCursor::advance`] takes the step [`WorkStep::Advance`].
pub proof fn law_advance_is_a_work_step(cursor: usize, limit: usize)
    requires
        cursor < usize::MAX,
    ensures
        wrapping_sum(cursor, 1) == (WorkStep::Advance { limit }).moves(cursor as int),
{
}

/// Without rewinds a work cursor never moves back.
proof fn lemma_work_only_advances(start: int, steps: Seq<WorkStep>, from: int, to: int)
    requires
        0 <= from <= to <= steps.len(),
        forall|i: int| from <= i < to ==> !((#[trigger] steps[i]) is Rewind),
    ensures
        work_after(start, steps, from) <= work_after(start, steps, to),
    decreases to - from,
{
    if from < to {
        assert(!(steps[to - 1] is Rewind));
        lemma_work_only_advances(start, steps, from, to - 1);
    }
}

/// However the steps of many claims interleave, a claim lies before its limit, and without rewinds
/// no position is claimed twice.
pub proof fn law_work_claims_are_distinct_between_rewinds(
    start: int,
    steps: Seq<WorkStep>,
    first: int,
    second: int,
)
    requires
        0 <= first < second < steps.len(),
        forall|i: int| first <= i < second ==> !((#[trigger] steps[i]) is Rewind),
        work_claim_at(start, steps, first) is Some,
        work_claim_at(start, steps, second) is Some,
        0 <= work_after(start, steps, first),
        work_after(start, steps, second) <= usize::MAX,
    ensures
        steps[first] matches WorkStep::Advance { limit } && work_claim_at(
            start,
            steps,
            first,
        )->0 < limit,
        work_claim_at(start, steps, first)->0 < work_claim_at(start, steps, second)->0,
{
    assert(!(steps[first] is Rewind));
    lemma_work_only_advances(start, steps, first + 1, second);
}

/// Once a claim before a limit was refused, the cursor stands at or past that limit until it is
/// rewound.
pub proof fn law_refused_work_stays_refused(
    start: int,
    steps: Seq<WorkStep>,
    refused: int,
    later: int,
    limit: usize,
)
    requires
        0 <= refused < later <= steps.len(),
        forall|i: int| refused <= i < later ==> !((#[trigger] steps[i]) is Rewind),
        steps[refused].refuses(work_after(start, steps, refused), limit),
    ensures
        work_after(start, steps, later) >= limit,
{
    lemma_work_only_advances(start, steps, refused, later);
}

/// A `usize` whose value is observed only for diagnostics or after worker synchronization.
#[derive(Debug, Clone, Copy, PartialEq, Eq, Structural)]
pub struct RelaxedUsize(pub usize);

impl Default for RelaxedUsize {
    fn default() -> (counter: Self)
        ensures
            counter == RelaxedUsize(0),
    {
        RelaxedUsize(0)
    }
}

impl RelaxedUsize {
    /// The counter after adding `value`, wrapping around at the end of the range.
    pub open spec fn plus(self, value: usize) -> RelaxedUsize {
        RelaxedUsize(wrapping_sum(self.0, value) as usize)
    }

    /// Adds one, wrapping around at the end of the range.
    pub fn increment(&mut self)
        ensures
            *final(self) == old(self).plus(1),
    {
        self.add(1);
    }

    /// Adds `value`, wrapping around at the end of the range.
    pub fn add(&mut self, value: usize)
        ensures
            *final(self) == old(self).plus(value),
    {
        self.0 = self.0.wrapping_add(value);
    }

    /// Replaces the value.
    pub fn set(&mut self, value: usize)
        ensures
            *final(self) == RelaxedUsize(value),
    {
        self.0 = value;
    }

    /// The current value.
    pub fn get(&self) -> (value: usize)
        ensures
            value == self.0,
    {
        self.0
    }
}

/// A counter is the sum of what was added to it, as long as the sum fits; and adding in two steps
/// is adding in one, also where the counter wraps around.
pub proof fn law_counters_add_up(counter: RelaxedUsize, first: usize, second: usize)
    ensures
        counter.0 + first <= usize::MAX ==> counter.plus(first).0 == counter.0 + first,
        counter.0 + first > usize::MAX ==> counter.plus(first).0 == counter.0 + first - usize::MAX
            - 1,
        counter.plus(0) == counter,
        first + second <= usize::MAX ==> counter.plus(first).plus(second) == counter.plus(
            (first + second) as usize,
        ),
        counter.plus(first).plus(second) == counter.plus(second).plus(first),
{
}

} // verus!
