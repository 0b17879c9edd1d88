//! The threads around the board, step by step.
//!
//! A thread that reads input, ticks or polls for agents goes by what happened last:
//! the next action is a function of it. A run of such a thread is the sequence of
//! what happened in it, where each turn is a possible outcome of the action that
//! the turn before it called for.

use core::time::Duration;
use vstd::prelude::*;
use crate::watch::{agents_poll_due, recently_active, whole_millis, INPUT_POLL_INTERVAL_MS};

verus! {

/// What happened last in the input thread.
#[derive(Debug, PartialEq, Eq)]
pub enum InputTurn<E> {
    /// The shutdown flag was read.
    Flag(bool),
    /// An input event arrived.
    Arrived(E),
    /// The wait for one ran out.
    TimedOut,
    /// The terminal could not be read.
    Failed,
    /// The input event was handed on.
    Sent,
    /// There was nobody to hand it on to.
    ReceiverGone,
}

/// What the input thread does next.
#[derive(Debug, PartialEq, Eq)]
pub enum InputAction<E> {
    /// Read the shutdown flag.
    CheckFlag,
    /// Wait for an input event, no longer than this many milliseconds.
    Read(u64),
    /// Stamp the board as active, and then hand the event on.
    StampAndSend(E),
    /// End.
    Stop,
}

/// What the input thread does after a turn. It ends at a set flag, at a terminal
/// that cannot be read and where nobody listens; only an event that arrived stamps
/// the board as active.
pub open spec fn after_input<E>(turn: InputTurn<E>) -> InputAction<E> {
    match turn {
        InputTurn::Flag(set) => if set {
            InputAction::Stop
        } else {
            InputAction::Read(INPUT_POLL_INTERVAL_MS)
        },
        InputTurn::Arrived(event) => InputAction::StampAndSend(event),
        InputTurn::TimedOut => InputAction::CheckFlag,
        InputTurn::Failed => InputAction::Stop,
        InputTurn::Sent => InputAction::CheckFlag,
        InputTurn::ReceiverGone => InputAction::Stop,
    }
}

/// What the input thread does next.
pub fn input_action<E>(turn: InputTurn<E>) -> (action: InputAction<E>)
    ensures
        action == after_input(turn),
{
    match turn {
        InputTurn::Flag(set) => {
            if set {
                InputAction::Stop
            } else {
                InputAction::Read(INPUT_POLL_INTERVAL_MS)
            }
        },
        InputTurn::Arrived(event) => InputAction::StampAndSend(event),
        InputTurn::TimedOut => InputAction::CheckFlag,
        InputTurn::Failed => InputAction::Stop,
        InputTurn::Sent => InputAction::CheckFlag,
        InputTurn::ReceiverGone => InputAction::Stop,
    }
}

/// Whether `next` is an outcome of `action`.
pub open spec fn input_outcome<E>(action: InputAction<E>, next: InputTurn<E>) -> bool {
    match action {
        InputAction::CheckFlag => next is Flag,
        InputAction::Read(_) => next is Arrived || next is TimedOut || next is Failed,
        InputAction::StampAndSend(_) => next is Sent || next is ReceiverGone,
        InputAction::Stop => false,
    }
}

/// Whether the turns are a run of the input thread: it starts by reading the flag,
/// and each turn is an outcome of what the one before it called for.
pub open spec fn input_run<E>(turns: Seq<InputTurn<E>>) -> bool {
    &&& turns.len() > 0 ==> turns[0] is Flag
    &&& forall|i: int|
        #![trigger turns[i]]
        0 < i < turns.len() ==> input_outcome(after_input(turns[i - 1]), turns[i])
}

/// The events that arrived, in order.
pub open spec fn arrivals<E>(turns: Seq<InputTurn<E>>) -> Seq<E>
    decreases turns.len(),
{
    if turns.len() == 0 {
        seq![]
    } else {
        match turns.last() {
            InputTurn::Arrived(event) => arrivals(turns.drop_last()).push(event),
            _ => arrivals(turns.drop_last()),
        }
    }
}

/// The events that the actions after the turns hand on, in order.
pub open spec fn handed_on<E>(turns: Seq<InputTurn<E>>) -> Seq<E>
    decreases turns.len(),
{
    if turns.len() == 0 {
        seq![]
    } else {
        match after_input(turns.last()) {
            InputAction::StampAndSend(event) => handed_on(turns.drop_last()).push(event),
            _ => handed_on(turns.drop_last()),
        }
    }
}

/// How many of the turns are the outcome of handing an event on.
pub open spec fn hand_overs<E>(turns: Seq<InputTurn<E>>) -> nat
    decreases turns.len(),
{
    if turns.len() == 0 {
        0
    } else if turns.last() is Sent || turns.last() is ReceiverGone {
        hand_overs(turns.drop_last()) + 1
    } else {
        hand_overs(turns.drop_last())
    }
}

/// A run without its last turn is a run.
proof fn lemma_shorter_input_run<E>(turns: Seq<InputTurn<E>>)
    requires
        turns.len() > 0,
        input_run(turns),
    ensures
        input_run(turns.drop_last()),
{
    let shorter = turns.drop_last();
    assert forall|i: int| #![trigger shorter[i]] 0 < i < shorter.len() implies input_outcome(
        after_input(shorter[i - 1]),
        shorter[i],
    ) by {
        assert(turns[i] == shorter[i] && turns[i - 1] == shorter[i - 1]);
    }
}

/// Each input event is handed on once and in order: over any run, the events that
/// the thread stamps the board for and hands on are those that arrived, and every
/// one but perhaps the last has had its one outcome.
pub proof fn lemma_input_is_handed_on_once_and_in_order<E>(turns: Seq<InputTurn<E>>)
    requires
        input_run(turns),
    ensures
        handed_on(turns) == arrivals(turns),
        hand_overs(turns) == if turns.len() > 0 && turns.last() is Arrived {
            arrivals(turns).len() - 1
        } else {
            arrivals(turns).len() as int
        },
    decreases turns.len(),
{
    if turns.len() > 0 {
        lemma_shorter_input_run(turns);
        lemma_input_is_handed_on_once_and_in_order(turns.drop_last());
        if turns.len() > 1 {
            let i = turns.len() - 1;
            assert(input_outcome(after_input(turns[i - 1]), turns[i]));
            assert(turns.drop_last().last() == turns[i - 1]);
        }
    }
}

/// An input thread ends where it must and nowhere else: a set flag, a terminal that
/// cannot be read and a receiver that is gone are each the last turn of a run, and
/// any other turn calls for one more. A wait that ran out hands nothing on.
pub proof fn lemma_an_input_run_ends_where_it_must<E>(turns: Seq<InputTurn<E>>, i: int)
    requires
        input_run(turns),
        0 <= i < turns.len(),
    ensures
        turns[i] == InputTurn::<E>::Flag(true) || turns[i] is Failed || turns[i] is ReceiverGone
            ==> i == turns.len() - 1,
        after_input(turns[i]) is Stop <==> turns[i] == InputTurn::<E>::Flag(true) || turns[i]
            is Failed || turns[i] is ReceiverGone,
        after_input(turns[i]) is StampAndSend <==> turns[i] is Arrived,
        after_input(turns[i]) matches InputAction::Read(wait) ==> wait == INPUT_POLL_INTERVAL_MS,
{
    if i + 1 < turns.len() {
        assert(input_outcome(after_input(turns[i]), turns[i + 1]));
    }
}

/// What happened last in the tick thread.
#[derive(Debug, Clone, Copy, PartialEq, Eq, Structural)]
pub enum TickTurn {
    /// It has just begun.
    Started,
    /// It woke up.
    Woke,
    /// The tick was handed on.
    Sent,
    /// There was nobody to hand it on to.
    ReceiverGone,
}

/// What the tick thread does next.
#[derive(Debug, Clone, Copy, PartialEq, Eq, Structural)]
pub enum TickAction {
    /// Sleep for a tick.
    Sleep,
    /// Hand a tick on.
    Send,
    /// End.
    Stop,
}

/// What the tick thread does next: it sleeps before each tick, and ends where
/// nobody listens.
pub fn tick_action(turn: TickTurn) -> (action: TickAction)
    ensures
        action == TickAction::Sleep <==> turn == TickTurn::Started || turn == TickTurn::Sent,
        action == TickAction::Send <==> turn == TickTurn::Woke,
        action == TickAction::Stop <==> turn == TickTurn::ReceiverGone,
{
    match turn {
        TickTurn::Started => TickAction::Sleep,
        TickTurn::Woke => TickAction::Send,
        TickTurn::Sent => TickAction::Sleep,
        TickTurn::ReceiverGone => TickAction::Stop,
    }
}

/// What happened last in the thread that polls for agents.
#[derive(Debug, PartialEq, Eq)]
pub enum PollerTurn<R> {
    /// The shutdown flag was read.
    Flag(bool),
    /// The time now and the time of the last activity were read.
    Clock { last_activity_ms: u64, now_ms: u64 },
    /// The poll was made, with this result.
    Polled(R),
    /// The result was handed on.
    Sent,
    /// There was nobody to hand it on to.
    ReceiverGone,
    /// It slept for an interval.
    Slept,
}

/// What the thread that polls for agents does next.
#[derive(Debug, PartialEq, Eq)]
pub enum PollerAction<R> {
    /// Read the shutdown flag.
    CheckFlag,
    /// Read the time now and the time of the last activity.
    ReadClock,
    /// Poll.
    Poll,
    /// Hand the result on.
    Send(R),
    /// Sleep for an interval.
    Sleep,
    /// End.
    Stop,
}

/// What the thread that polls for agents does after a turn, on a board that is idle
/// after `idle_ms`. Whether or not a poll is due, it comes back to the flag after
/// each interval, and a set flag ends it.
pub open spec fn after_poller<R>(turn: PollerTurn<R>, idle_ms: int) -> PollerAction<R> {
    match turn {
        PollerTurn::Flag(set) => if set {
            PollerAction::Stop
        } else {
            PollerAction::ReadClock
        },
        PollerTurn::Clock { last_activity_ms, now_ms } => if recently_active(
            last_activity_ms as int,
            now_ms as int,
            idle_ms,
        ) {
            PollerAction::Poll
        } else {
            PollerAction::Sleep
        },
        PollerTurn::Polled(result) => PollerAction::Send(result),
        PollerTurn::Sent => PollerAction::Sleep,
        PollerTurn::ReceiverGone => PollerAction::Stop,
        PollerTurn::Slept => PollerAction::CheckFlag,
    }
}

/// What the thread that polls for agents does next, on a board that is idle after
/// `idle_after`.
pub fn poller_action<R>(turn: PollerTurn<R>, idle_after: Duration) -> (action: PollerAction<R>)
    ensures
        action == after_poller(turn, whole_millis(idle_after) as int),
{
    match turn {
        PollerTurn::Flag(set) => {
            if set {
                PollerAction::Stop
            } else {
                PollerAction::ReadClock
            }
        },
        PollerTurn::Clock { last_activity_ms, now_ms } => {
            if agents_poll_due(last_activity_ms, now_ms, idle_after) {
                PollerAction::Poll
            } else {
                PollerAction::Sleep
            }
        },
        PollerTurn::Polled(result) => PollerAction::Send(result),
        PollerTurn::Sent => PollerAction::Sleep,
        PollerTurn::ReceiverGone => PollerAction::Stop,
        PollerTurn::Slept => PollerAction::CheckFlag,
    }
}

/// Whether `next` is an outcome of `action`.
pub open spec fn poller_outcome<R>(action: PollerAction<R>, next: PollerTurn<R>) -> bool {
    match action {
        PollerAction::CheckFlag => next is Flag,
        PollerAction::ReadClock => next is Clock,
        PollerAction::Poll => next is Polled,
        PollerAction::Send(_) => next is Sent || next is ReceiverGone,
        PollerAction::Sleep => next is Slept,
        PollerAction::Stop => false,
    }
}

/// Whether the turns are a run of the thread that polls for agents: it starts by
/// reading the flag, and each turn is an outcome of what the one before it called
/// for.
pub open spec fn poller_run<R>(turns: Seq<PollerTurn<R>>, idle_ms: int) -> bool {
    &&& turns.len() > 0 ==> turns[0] is Flag
    &&& forall|i: int|
        #![trigger turns[i]]
        0 < i < turns.len() ==> poller_outcome(after_poller(turns[i - 1], idle_ms), turns[i])
}

/// The results of the polls, in order.
pub open spec fn poll_results<R>(turns: Seq<PollerTurn<R>>) -> Seq<R>
    decreases turns.len(),
{
    if turns.len() == 0 {
        seq![]
    } else {
        match turns.last() {
            PollerTurn::Polled(result) => poll_results(turns.drop_last()).push(result),
            _ => poll_results(turns.drop_last()),
        }
    }
}

/// The results that the actions after the turns hand on, in order.
pub open spec fn reported<R>(turns: Seq<PollerTurn<R>>, idle_ms: int) -> Seq<R>
    decreases turns.len(),
{
    if turns.len() == 0 {
        seq![]
    } else {
        match after_poller(turns.last(), idle_ms) {
            PollerAction::Send(result) => reported(turns.drop_last(), idle_ms).push(result),
            _ => reported(turns.drop_last(), idle_ms),
        }
    }
}

/// How many of the turns are the outcome of handing a result on.
pub open spec fn reports<R>(turns: Seq<PollerTurn<R>>) -> nat
    decreases turns.len(),
{
    if turns.len() == 0 {
        0
    } else if turns.last() is Sent || turns.last() is ReceiverGone {
        reports(turns.drop_last()) + 1
    } else {
        reports(turns.drop_last())
    }
}

/// A run without its last turn is a run.
proof fn lemma_shorter_poller_run<R>(turns: Seq<PollerTurn<R>>, idle_ms: int)
    requires
        turns.len() > 0,
        poller_run(turns, idle_ms),
    ensures
        poller_run(turns.drop_last(), idle_ms),
{
    let shorter = turns.drop_last();
    assert forall|i: int| #![trigger shorter[i]] 0 < i < shorter.len() implies poller_outcome(
        after_poller(shorter[i - 1], idle_ms),
        shorter[i],
    ) by {
        assert(turns[i] == shorter[i] && turns[i - 1] == shorter[i - 1]);
    }
}

/// Each poll is handed on once and in order: over any run, the results that the
/// thread hands on are those of the polls it made, and every one but perhaps the
/// last has had its one outcome.
pub proof fn lemma_polls_are_reported_once_and_in_order<R>(
    turns: Seq<PollerTurn<R>>,
    idle_ms: int,
)
    requires
        poller_run(turns, idle_ms),
    ensures
        reported(turns, idle_ms) == poll_results(turns),
        reports(turns) == if turns.len() > 0 && turns.last() is Polled {
            poll_results(turns).len() - 1
        } else {
            poll_results(turns).len() as int
        },
    decreases turns.len(),
{
    if turns.len() > 0 {
        lemma_shorter_poller_run(turns, idle_ms);
        lemma_polls_are_reported_once_and_in_order(turns.drop_last(), idle_ms);
        if turns.len() > 1 {
            let i = turns.len() - 1;
            assert(poller_outcome(after_poller(turns[i - 1], idle_ms), turns[i]));
            assert(turns.drop_last().last() == turns[i - 1]);
        }
    }
}

/// A set flag ends the run without a poll, whether or not one is due, and so does a
/// receiver that is gone: each is the last turn.
pub proof fn lemma_a_set_flag_ends_the_polls<R>(
    turns: Seq<PollerTurn<R>>,
    idle_ms: int,
    i: int,
)
    requires
        poller_run(turns, idle_ms),
        0 <= i < turns.len(),
        turns[i] == PollerTurn::<R>::Flag(true) || turns[i] is ReceiverGone,
    ensures
        i == turns.len() - 1,
        after_poller(turns[i], idle_ms) is Stop,
{
    if i + 1 < turns.len() {
        assert(poller_outcome(after_poller(turns[i], idle_ms), turns[i + 1]));
    }
}

/// Whether the clock, as it was read, finds a poll due.
pub open spec fn finds_due<R>(turn: PollerTurn<R>, idle_ms: int) -> bool {
    turn matches PollerTurn::Clock { last_activity_ms, now_ms } && recently_active(
        last_activity_ms as int,
        now_ms as int,
        idle_ms,
    )
}

/// A poll is made where it is due and nowhere else: right after the clock was read,
/// which is right after the flag was found unset, and no sleep lies in between. So
/// the first one comes before any sleep.
pub proof fn lemma_a_poll_is_made_exactly_where_it_is_due<R>(
    turns: Seq<PollerTurn<R>>,
    idle_ms: int,
    i: int,
)
    requires
        poller_run(turns, idle_ms),
        0 <= i < turns.len(),
    ensures
        turns[i] is Polled ==> {
            &&& i >= 2
            &&& turns[i - 2] == PollerTurn::<R>::Flag(false)
            &&& turns[i - 1] is Clock && finds_due(turns[i - 1], idle_ms)
            &&& i == 2 || turns[i - 3] is Slept
        },
        turns[i] is Slept ==> {
            &&& i > 0
            &&& turns[i - 1] is Sent || (turns[i - 1] is Clock && !finds_due(turns[i - 1], idle_ms))
        },
        turns[i] is Clock && i + 1 < turns.len() ==> if finds_due(turns[i], idle_ms) {
            turns[i + 1] is Polled
        } else {
            turns[i + 1] is Slept
        },
{
    if i > 0 {
        assert(poller_outcome(after_poller(turns[i - 1], idle_ms), turns[i]));
    }
    if i > 1 {
        assert(poller_outcome(after_poller(turns[i - 2], idle_ms), turns[i - 1]));
    }
    if i > 2 {
        assert(poller_outcome(after_poller(turns[i - 3], idle_ms), turns[i - 2]));
    }
    if i + 1 < turns.len() {
        assert(poller_outcome(after_poller(turns[i], idle_ms), turns[i + 1]));
    }
}

} // verus!
