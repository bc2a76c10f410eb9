//! The timing of a raft node's event loop.
//!
//! The loop waits for a message, then charges the time that passed against
//! the time left until the next tick; when that time is used up the node
//! ticks and the full timeout starts again.

use vstd::prelude::*;

verus! {

/// The clock of the event loop, in nanoseconds.
pub struct Ticker {
    timeout: u128,
    remaining: u128,
}

impl Ticker {
    /// The time left is at most the timeout.
    #[verifier::type_invariant]
    spec fn wf(&self) -> bool {
        self.remaining <= self.timeout
    }

    /// The time between ticks.
    pub closed spec fn timeout(&self) -> u128 {
        self.timeout
    }

    /// The time left until the next tick.
    pub closed spec fn remaining(&self) -> u128 {
        self.remaining
    }

    /// A ticker with the full timeout left.
    pub fn new(timeout: u128) -> (t: Ticker)
        ensures
            t.timeout() == timeout,
            t.remaining() == timeout,
    {
        Ticker { timeout, remaining: timeout }
    }

    /// Charges `elapsed` against the time left. Returns whether the node is
    /// to tick: it is where the time left is used up, and then the full
    /// timeout starts again; otherwise the time left shrinks by `elapsed`.
    pub fn advance(&mut self, elapsed: u128) -> (tick: bool)
        ensures
            final(self).remaining() <= final(self).timeout(),
            final(self).timeout() == old(self).timeout(),
            (tick, final(self).remaining()) == step(old(self).timeout(), old(self).remaining(), elapsed),
            tick == (elapsed >= old(self).remaining()),
            tick ==> final(self).remaining() == final(self).timeout(),
            !tick ==> final(self).remaining() == old(self).remaining() - elapsed,
    {
        proof {
            use_type_invariant(&*self);
        }
        if elapsed >= self.remaining {
            self.remaining = self.timeout;
            true
        } else {
            self.remaining = self.remaining - elapsed;
            false
        }
    }
}

/// One step of the clock: whether the node ticks after `elapsed`, and the
/// time left afterwards.
pub open spec fn step(timeout: u128, remaining: u128, elapsed: u128) -> (bool, u128) {
    if elapsed >= remaining {
        (true, timeout)
    } else {
        (false, (remaining - elapsed) as u128)
    }
}

/// The time left after a run of waits.
pub open spec fn left_after(timeout: u128, remaining: u128, waits: Seq<u128>) -> u128
    decreases waits.len(),
{
    if waits.len() == 0 {
        remaining
    } else {
        left_after(timeout, step(timeout, remaining, waits[0]).1, waits.drop_first())
    }
}

/// No step of a run of waits ticks.
pub open spec fn no_tick(timeout: u128, remaining: u128, waits: Seq<u128>) -> bool
    decreases waits.len(),
{
    if waits.len() == 0 {
        true
    } else {
        !step(timeout, remaining, waits[0]).0 && no_tick(
            timeout,
            step(timeout, remaining, waits[0]).1,
            waits.drop_first(),
        )
    }
}

/// The sum of a run of waits.
pub open spec fn total(waits: Seq<u128>) -> int
    decreases waits.len(),
{
    if waits.len() == 0 {
        0
    } else {
        waits[0] + total(waits.drop_first())
    }
}

/// No tick is missed or early: over a run of waits without a tick, the time
/// that passed stays below the time that was left, and the time left after
/// it is what was left less the time that passed.
pub proof fn lemma_time_left_is_time_passed(timeout: u128, remaining: u128, waits: Seq<u128>)
    requires
        no_tick(timeout, remaining, waits),
    ensures
        total(waits) < remaining || waits.len() == 0,
        left_after(timeout, remaining, waits) == remaining - total(waits),
    decreases waits.len(),
{
    if waits.len() > 0 {
        let next = step(timeout, remaining, waits[0]).1;
        lemma_time_left_is_time_passed(timeout, next, waits.drop_first());
        assert(total(waits.drop_first()) >= 0) by {
            lemma_total_nonnegative(waits.drop_first());
        }
    }
}

proof fn lemma_total_nonnegative(waits: Seq<u128>)
    ensures
        total(waits) >= 0,
    decreases waits.len(),
{
    if waits.len() > 0 {
        lemma_total_nonnegative(waits.drop_first());
    }
}

/// One piece of work on a batch of raft's output.
#[derive(Clone, Copy, PartialEq, Eq, Structural, Debug)]
pub enum ReadyAction {
    /// Send the messages that need nothing persisted first.
    SendMessages,
    /// Install the snapshot in the store.
    ApplySnapshot,
    /// Hand the committed entries to the state machine.
    ApplyCommitted,
    /// Append the new entries to the store.
    SaveEntries,
    /// Store the new hard state.
    SaveHardState,
    /// Send the messages that wait on what was persisted.
    SendPersistedMessages,
    /// Tell raft that the batch is done.
    Advance,
}

/// The order in which a batch is worked off, given whether it carries a
/// snapshot, new entries and a new hard state.
pub open spec fn ready_order(has_snapshot: bool, has_entries: bool, has_hard_state: bool) -> Seq<ReadyAction> {
    seq![ReadyAction::SendMessages]
        + (if has_snapshot { seq![ReadyAction::ApplySnapshot] } else { Seq::empty() })
        + seq![ReadyAction::ApplyCommitted]
        + (if has_entries { seq![ReadyAction::SaveEntries] } else { Seq::empty() })
        + (if has_hard_state { seq![ReadyAction::SaveHardState] } else { Seq::empty() })
        + seq![ReadyAction::SendPersistedMessages, ReadyAction::Advance]
}

/// Whether an action writes to the store.
pub open spec fn persists(a: ReadyAction) -> bool {
    a == ReadyAction::ApplySnapshot || a == ReadyAction::SaveEntries || a == ReadyAction::SaveHardState
}

/// The work on a batch, in order.
pub fn ready_plan(has_snapshot: bool, has_entries: bool, has_hard_state: bool) -> (plan: Vec<ReadyAction>)
    ensures
        plan@ == ready_order(has_snapshot, has_entries, has_hard_state),
{
    let mut plan: Vec<ReadyAction> = Vec::new();
    plan.push(ReadyAction::SendMessages);
    if has_snapshot {
        plan.push(ReadyAction::ApplySnapshot);
    }
    plan.push(ReadyAction::ApplyCommitted);
    if has_entries {
        plan.push(ReadyAction::SaveEntries);
    }
    if has_hard_state {
        plan.push(ReadyAction::SaveHardState);
    }
    plan.push(ReadyAction::SendPersistedMessages);
    plan.push(ReadyAction::Advance);
    assert(plan@ =~= ready_order(has_snapshot, has_entries, has_hard_state));
    plan
}

/// What raft asks of a batch holds of its order: the snapshot, the entries
/// and the hard state each reach the store exactly where the batch carries
/// them, all of it before the messages that wait on it go out; each action
/// comes at most once, and the node advances last.
pub proof fn lemma_persist_before_send(has_snapshot: bool, has_entries: bool, has_hard_state: bool)
    ensures
        ({
            let plan = ready_order(has_snapshot, has_entries, has_hard_state);
            &&& plan.len() >= 4
            &&& plan.last() == ReadyAction::Advance
            &&& plan[plan.len() - 2] == ReadyAction::SendPersistedMessages
            &&& forall|i: int| 0 <= i < plan.len() && persists(#[trigger] plan[i]) ==> i < plan.len() - 2
            &&& forall|i: int, j: int| 0 <= i < j < plan.len() ==> #[trigger] plan[i] != #[trigger] plan[j]
            &&& plan.contains(ReadyAction::ApplySnapshot) == has_snapshot
            &&& plan.contains(ReadyAction::SaveEntries) == has_entries
            &&& plan.contains(ReadyAction::SaveHardState) == has_hard_state
        }),
{
    let plan = ready_order(has_snapshot, has_entries, has_hard_state);
    if !has_snapshot {
        assert(!plan.contains(ReadyAction::ApplySnapshot));
    } else {
        assert(plan[1] == ReadyAction::ApplySnapshot);
    }
    if !has_entries {
        assert(!plan.contains(ReadyAction::SaveEntries));
    } else {
        let k: int = if has_snapshot { 3 } else { 2 };
        assert(plan[k] == ReadyAction::SaveEntries);
    }
    if !has_hard_state {
        assert(!plan.contains(ReadyAction::SaveHardState));
    } else {
        let k: int = 2 + (if has_snapshot { 1int } else { 0int }) + (if has_entries { 1int } else { 0int });
        assert(plan[k] == ReadyAction::SaveHardState);
    }
}

/// The place of an action in the work on a batch: messages first, then the
/// snapshot, the committed entries, the new entries, the hard state, the
/// persisted messages, and the advance last.
pub open spec fn rank(a: ReadyAction) -> int {
    match a {
        ReadyAction::SendMessages => 0,
        ReadyAction::ApplySnapshot => 1,
        ReadyAction::ApplyCommitted => 2,
        ReadyAction::SaveEntries => 3,
        ReadyAction::SaveHardState => 4,
        ReadyAction::SendPersistedMessages => 5,
        ReadyAction::Advance => 6,
    }
}

/// Every batch is worked off whole and in order, whatever it carries: the
/// messages are sent, the committed entries applied, the persisted messages
/// sent and the node advanced on every batch; the snapshot, the entries and
/// the hard state are written exactly when the batch carries them; every
/// action comes after those of lower rank; and the plan holds nothing else.
pub proof fn lemma_ready_order_complete(has_snapshot: bool, has_entries: bool, has_hard_state: bool)
    ensures
        ({
            let plan = ready_order(has_snapshot, has_entries, has_hard_state);
            &&& plan.contains(ReadyAction::SendMessages)
            &&& plan.contains(ReadyAction::ApplyCommitted)
            &&& plan.contains(ReadyAction::SendPersistedMessages)
            &&& plan.contains(ReadyAction::Advance)
            &&& plan.contains(ReadyAction::ApplySnapshot) == has_snapshot
            &&& plan.contains(ReadyAction::SaveEntries) == has_entries
            &&& plan.contains(ReadyAction::SaveHardState) == has_hard_state
            &&& plan[0] == ReadyAction::SendMessages
            &&& forall|i: int, j: int| 0 <= i < j < plan.len() ==> rank(#[trigger] plan[i]) < rank(#[trigger] plan[j])
            &&& plan.len() == 4 + (if has_snapshot { 1int } else { 0int }) + (if has_entries { 1int } else { 0int })
                + (if has_hard_state { 1int } else { 0int })
        }),
{
    let plan = ready_order(has_snapshot, has_entries, has_hard_state);
    lemma_persist_before_send(has_snapshot, has_entries, has_hard_state);
    let c: int = if has_snapshot { 2 } else { 1 };
    assert(plan[c] == ReadyAction::ApplyCommitted);
    assert(plan[0] == ReadyAction::SendMessages);
    assert(plan[plan.len() - 1] == ReadyAction::Advance);
    assert(plan[plan.len() - 2] == ReadyAction::SendPersistedMessages);
}

/// A tick starts a full timeout again, whatever the overshoot: the node ticks
/// exactly when the time that passed reaches the time left; after a tick the
/// whole timeout is left, and otherwise the time left shrinks by the time
/// that passed. So after a tick the next one comes only once a full timeout
/// has passed: a wait shorter than the timeout does not tick.
pub proof fn lemma_tick_restarts_timeout(timeout: u128, remaining: u128, elapsed: u128, next: u128)
    ensures
        step(timeout, remaining, elapsed).0 == (elapsed >= remaining),
        step(timeout, remaining, elapsed).0 ==> step(timeout, remaining, elapsed).1 == timeout,
        !step(timeout, remaining, elapsed).0 ==> step(timeout, remaining, elapsed).1 == remaining - elapsed,
        step(timeout, remaining, elapsed).0 && next < timeout ==> !step(
            timeout,
            step(timeout, remaining, elapsed).1,
            next,
        ).0,
{
}

} // verus!
