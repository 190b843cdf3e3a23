//! Timers as plain state machines.
//!
//! A `Timer` is what a role holds: it knows its period, the message it
//! delivers and whether it runs, and it answers each request with the
//! command that the owner of the real clock has to carry out. A `Clock` is the
//! other end: it decides, event by event, what the background task of a
//! running timer does.

use super::RaftMessage;
use vstd::prelude::*;

verus! {

/// Where a timer is in its life.
#[derive(Clone, Copy, Debug, PartialEq, Eq, Structural)]
pub enum TimerState {
    Unstarted,
    Running,
    Stopped,
}

/// What the owner of the real clock has to do for a timer.
#[derive(Clone, Copy, Debug, PartialEq, Eq, Structural)]
pub enum TimerCommand {
    /// Start a background clock that ticks every `period` milliseconds and
    /// delivers `message` into the mailbox of the node.
    Spawn { period: u64, message: RaftMessage },
    /// Tell the running clock to start its interval anew.
    Reset,
    /// Tell the running clock to end, and wait until it has.
    Stop,
}

/// A cancellable periodic timer.
#[derive(Clone, Copy, Debug)]
pub struct Timer {
    /// The period, in milliseconds. A period of zero marks a placeholder.
    pub timeout: u64,
    /// The message delivered at each expiry.
    pub timeout_message: RaftMessage,
    /// Where the timer is in its life.
    pub state: TimerState,
}

impl Timer {
    /// The period, in milliseconds.
    pub open spec fn period(self) -> u64 {
        self.timeout
    }

    /// The message delivered at each expiry.
    pub open spec fn message(self) -> RaftMessage {
        self.timeout_message
    }

    /// Where the timer is in its life.
    pub open spec fn state(self) -> TimerState {
        self.state
    }

    /// The command that `start` hands out, and the state it leaves.
    pub open spec fn started(self) -> (TimerState, Option<TimerCommand>) {
        if self.period() != 0 && self.state() == TimerState::Unstarted {
            (
                TimerState::Running,
                Some(TimerCommand::Spawn { period: self.period(), message: self.message() }),
            )
        } else {
            (self.state(), None)
        }
    }

    /// The command that `reset` hands out.
    pub open spec fn reset_command(self) -> Option<TimerCommand> {
        if self.state() == TimerState::Running {
            Some(TimerCommand::Reset)
        } else {
            None
        }
    }

    /// The command that `restart` hands out, and the state it leaves.
    pub open spec fn restarted(self) -> (TimerState, Option<TimerCommand>) {
        if self.state() == TimerState::Running {
            (TimerState::Running, Some(TimerCommand::Reset))
        } else {
            self.started()
        }
    }

    /// The command that `stop` hands out, and the state it leaves.
    pub open spec fn stopped(self) -> (TimerState, Option<TimerCommand>) {
        if self.period() == 0 {
            (self.state(), None)
        } else if self.state() == TimerState::Running {
            (TimerState::Stopped, Some(TimerCommand::Stop))
        } else {
            (TimerState::Stopped, None)
        }
    }

    /// The timer with the state `state` in place of its own.
    pub open spec fn in_state(self, state: TimerState) -> Timer {
        Timer { state, ..self }
    }

    /// A timer that has not been started, with a period of `timeout`
    /// milliseconds.
    pub fn new(timeout: u64, timeout_message: RaftMessage) -> (timer: Timer)
        ensures
            timer == (Timer { timeout, timeout_message, state: TimerState::Unstarted }),
    {
        Timer { timeout, timeout_message, state: TimerState::Unstarted }
    }

    /// A placeholder: a timer with a period of zero, which never runs.
    pub fn dummy(timeout_message: RaftMessage) -> (timer: Timer)
        ensures
            timer == (Timer { timeout: 0, timeout_message, state: TimerState::Unstarted }),
    {
        Timer::new(0, timeout_message)
    }

    /// Starts the timer. A timer that was never started and is no
    /// placeholder begins to run, and its clock has to be spawned. On any
    /// other timer nothing happens: no second clock is ever asked for.
    pub fn start(&mut self) -> (command: Option<TimerCommand>)
        ensures
            *final(self) == old(self).in_state(old(self).started().0),
            command == old(self).started().1,
    {
        if self.timeout == 0 {
            return None;  // zero timeout is for a placeholder, no need to set up a clock.
        }
        match self.state {
            TimerState::Unstarted => {
                self.state = TimerState::Running;
                Some(TimerCommand::Spawn { period: self.timeout, message: self.timeout_message })
            },
            _ => None,
        }
    }

    /// Starts the timer if it never ran, and starts its interval anew if it
    /// runs.
    pub fn restart(&mut self) -> (command: Option<TimerCommand>)
        ensures
            *final(self) == old(self).in_state(old(self).restarted().0),
            command == old(self).restarted().1,
    {
        match self.state {
            TimerState::Running => self.reset(),
            _ => self.start(),
        }
    }

    /// Starts the interval of a running timer anew. The timer itself does
    /// not change, so that any number of resets in a row ask for the same.
    pub fn reset(&self) -> (command: Option<TimerCommand>)
        ensures
            command == self.reset_command(),
    {
        match self.state {
            TimerState::Running => Some(TimerCommand::Reset),
            _ => None,
        }
    }

    /// Stops the timer for good. A running timer asks for its clock to be
    /// ended and waited for; after that the timer asks for nothing any more.
    /// On a placeholder nothing happens.
    pub fn stop(&mut self) -> (command: Option<TimerCommand>)
        ensures
            *final(self) == old(self).in_state(old(self).stopped().0),
            command == old(self).stopped().1,
    {
        if self.timeout == 0 {
            return None;
        }
        let command = match self.state {
            TimerState::Running => Some(TimerCommand::Stop),
            _ => None,
        };
        self.state = TimerState::Stopped;
        command
    }

    /// The message to deliver right now, as if the timer had expired.
    pub fn timeout(&self) -> (message: RaftMessage)
        ensures
            message == self.message(),
    {
        self.timeout_message
    }
}

/// What the background task of a running timer can meet while it waits.
#[derive(Clone, Copy, Debug, PartialEq, Eq, Structural)]
pub enum ClockEvent {
    /// The interval has elapsed.
    Tick,
    /// The timer asked for the interval to start anew.
    Reset,
    /// The timer asked the clock to end.
    Stop,
    /// The timer is gone: the channel of its requests is closed.
    ControlClosed,
    /// The last message could not be delivered: the mailbox is closed.
    DeliveryFailed,
}

/// What the background task has to do next.
#[derive(Clone, Copy, Debug, PartialEq, Eq, Structural)]
pub enum ClockAction {
    /// Nothing: go on waiting.
    Wait,
    /// Deliver the message into the mailbox, then go on waiting.
    Fire(RaftMessage),
    /// Start the interval anew, then go on waiting.
    RestartInterval,
    /// Make the failure known, then go on waiting.
    Report,
    /// End the task.
    Exit,
    /// Make the failure known, then end the task.
    Abort,
}

/// The decisions of the background task of one running timer.
#[derive(Clone, Copy, Debug, PartialEq, Eq, Structural)]
pub struct Clock {
    /// The message to deliver at each expiry.
    pub message: RaftMessage,
    /// The first tick is behind: from now on each tick delivers.
    pub armed: bool,
    /// The task has been told to end, or has ended itself.
    pub done: bool,
}

impl Clock {
    /// The clock after `event`, and what the task has to do.
    ///
    /// The first tick delivers nothing, so that the first message comes a
    /// full interval after the start; every later tick delivers the message
    /// once. A reset starts the interval anew, after which no tick is left
    /// to pass over. A stop ends the task. A closed request channel is made
    /// known once and ends the task too. A failed delivery is made known and
    /// changes nothing else. Once the task has ended it delivers nothing,
    /// whatever comes.
    pub open spec fn next(self, event: ClockEvent) -> (Clock, ClockAction) {
        if self.done {
            (self, ClockAction::Exit)
        } else {
            match event {
                ClockEvent::Tick => if self.armed {
                    (self, ClockAction::Fire(self.message))
                } else {
                    (Clock { armed: true, ..self }, ClockAction::Wait)
                },
                ClockEvent::Reset => (Clock { armed: true, ..self }, ClockAction::RestartInterval),
                ClockEvent::Stop => (Clock { done: true, ..self }, ClockAction::Exit),
                ClockEvent::ControlClosed => (Clock { done: true, ..self }, ClockAction::Abort),
                ClockEvent::DeliveryFailed => (self, ClockAction::Report),
            }
        }
    }

    /// The clock of a timer that was just started.
    pub fn new(message: RaftMessage) -> (clock: Clock)
        ensures
            clock == (Clock { message, armed: false, done: false }),
    {
        Clock { message, armed: false, done: false }
    }

    /// Takes one event and says what the task has to do.
    pub fn step(&mut self, event: ClockEvent) -> (action: ClockAction)
        ensures
            (*final(self), action) == old(self).next(event),
    {
        if self.done {
            return ClockAction::Exit;
        }
        match event {
            ClockEvent::Tick => {
                if self.armed {
                    ClockAction::Fire(self.message)
                } else {
                    self.armed = true;
                    ClockAction::Wait
                }
            },
            ClockEvent::Reset => {
                self.armed = true;
                ClockAction::RestartInterval
            },
            ClockEvent::Stop => {
                self.done = true;
                ClockAction::Exit
            },
            ClockEvent::ControlClosed => {
                self.done = true;
                ClockAction::Abort
            },
            ClockEvent::DeliveryFailed => ClockAction::Report,
        }
    }
}

/// A stopped timer asks for nothing any more, whatever is asked of it, and
/// stays stopped.
pub proof fn lemma_stopped_timer_is_silent(timer: Timer)
    requires
        timer.state() == TimerState::Stopped,
    ensures
        timer.started() == (TimerState::Stopped, None::<TimerCommand>),
        timer.restarted() == (TimerState::Stopped, None::<TimerCommand>),
        timer.stopped() == (TimerState::Stopped, None::<TimerCommand>),
        timer.reset_command() == None::<TimerCommand>,
{
}

/// A placeholder never runs: nothing that is asked of it makes it ask for a
/// clock.
pub proof fn lemma_placeholder_is_inert(timer: Timer)
    requires
        timer.period() == 0,
        timer.state() == TimerState::Unstarted,
    ensures
        timer.started() == (TimerState::Unstarted, None::<TimerCommand>),
        timer.restarted() == (TimerState::Unstarted, None::<TimerCommand>),
        timer.stopped() == (TimerState::Unstarted, None::<TimerCommand>),
        timer.reset_command() == None::<TimerCommand>,
{
}

/// A clock delivers nothing at its first tick and its message exactly once
/// at each tick after that, for as long as it is not told to end.
pub proof fn lemma_one_delivery_per_tick(clock: Clock)
    requires
        !clock.done,
    ensures
        !clock.armed ==> clock.next(ClockEvent::Tick) == (
            Clock { armed: true, ..clock },
            ClockAction::Wait,
        ),
        clock.armed ==> clock.next(ClockEvent::Tick) == (clock, ClockAction::Fire(clock.message)),
{
}

/// A clock that has ended delivers nothing, whatever comes, and stays ended.
pub proof fn lemma_ended_clock_is_silent(clock: Clock, event: ClockEvent)
    requires
        clock.done || event == ClockEvent::Stop || event == ClockEvent::ControlClosed,
    ensures
        !(clock.next(event).1 is Fire),
        clock.next(event).0.done,
{
}

} // verus!
