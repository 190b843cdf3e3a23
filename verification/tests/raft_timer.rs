use tinykv::raft::timer::{Clock, ClockAction, ClockEvent, Timer, TimerCommand, TimerState};
use tinykv::raft::RaftMessage;

#[test]
fn a_timer_is_spawned_once() {
    let mut timer = Timer::new(80, RaftMessage::ElectionTimeOut);
    assert_eq!(timer.state, TimerState::Unstarted);
    assert_eq!(
        timer.start(),
        Some(TimerCommand::Spawn { period: 80, message: RaftMessage::ElectionTimeOut })
    );
    assert_eq!(timer.state, TimerState::Running);
    assert_eq!(timer.start(), None);
    assert_eq!(timer.state, TimerState::Running);
}

#[test]
fn restart_starts_first_and_resets_after() {
    let mut timer = Timer::new(80, RaftMessage::HeartTimeOut);
    assert_eq!(
        timer.restart(),
        Some(TimerCommand::Spawn { period: 80, message: RaftMessage::HeartTimeOut })
    );
    assert_eq!(timer.restart(), Some(TimerCommand::Reset));
    assert_eq!(timer.restart(), Some(TimerCommand::Reset));
    assert_eq!(timer.state, TimerState::Running);
}

#[test]
fn reset_is_the_same_however_often() {
    let mut timer = Timer::new(80, RaftMessage::ElectionTimeOut);
    assert_eq!(timer.reset(), None);
    timer.start();
    for _ in 0..3 {
        assert_eq!(timer.reset(), Some(TimerCommand::Reset));
        assert_eq!(timer.state, TimerState::Running);
    }
}

#[test]
fn a_stopped_timer_asks_for_nothing() {
    let mut timer = Timer::new(80, RaftMessage::ElectionTimeOut);
    timer.start();
    assert_eq!(timer.stop(), Some(TimerCommand::Stop));
    assert_eq!(timer.state, TimerState::Stopped);
    assert_eq!(timer.stop(), None);
    assert_eq!(timer.start(), None);
    assert_eq!(timer.restart(), None);
    assert_eq!(timer.reset(), None);
    assert_eq!(timer.state, TimerState::Stopped);
}

#[test]
fn a_timer_that_never_ran_has_no_clock_to_stop() {
    let mut timer = Timer::new(80, RaftMessage::ElectionTimeOut);
    assert_eq!(timer.stop(), None);
    assert_eq!(timer.state, TimerState::Stopped);
    assert_eq!(timer.start(), None);
}

#[test]
fn a_placeholder_never_runs() {
    let mut timer = Timer::dummy(RaftMessage::ElectionTimeOut);
    assert_eq!(timer.timeout, 0);
    assert_eq!(timer.start(), None);
    assert_eq!(timer.restart(), None);
    assert_eq!(timer.reset(), None);
    assert_eq!(timer.stop(), None);
    assert_eq!(timer.state, TimerState::Unstarted);
    assert_eq!(timer.timeout(), RaftMessage::ElectionTimeOut);
}

#[test]
fn timeout_gives_the_message_of_the_timer() {
    let timer = Timer::new(80, RaftMessage::HeartTimeOut);
    assert_eq!(timer.timeout(), RaftMessage::HeartTimeOut);
}

#[test]
fn a_clock_passes_over_its_first_tick_and_fires_at_every_other() {
    let mut clock = Clock::new(RaftMessage::ElectionTimeOut);
    assert_eq!(clock.step(ClockEvent::Tick), ClockAction::Wait);
    for _ in 0..3 {
        assert_eq!(
            clock.step(ClockEvent::Tick),
            ClockAction::Fire(RaftMessage::ElectionTimeOut)
        );
    }
}

#[test]
fn a_reset_restarts_the_interval() {
    let mut clock = Clock::new(RaftMessage::ElectionTimeOut);
    clock.step(ClockEvent::Tick);
    assert_eq!(clock.step(ClockEvent::Reset), ClockAction::RestartInterval);
    assert_eq!(
        clock.step(ClockEvent::Tick),
        ClockAction::Fire(RaftMessage::ElectionTimeOut)
    );
    // a reset before the first tick leaves no tick to pass over
    let mut early = Clock::new(RaftMessage::HeartTimeOut);
    assert_eq!(early.step(ClockEvent::Reset), ClockAction::RestartInterval);
    assert_eq!(early.step(ClockEvent::Tick), ClockAction::Fire(RaftMessage::HeartTimeOut));
}

#[test]
fn a_stopped_clock_fires_no_more() {
    let mut clock = Clock::new(RaftMessage::ElectionTimeOut);
    clock.step(ClockEvent::Tick);
    assert_eq!(clock.step(ClockEvent::Stop), ClockAction::Exit);
    assert!(clock.done);
    assert_eq!(clock.step(ClockEvent::Tick), ClockAction::Exit);
    assert_eq!(clock.step(ClockEvent::Reset), ClockAction::Exit);
    assert_eq!(clock.step(ClockEvent::DeliveryFailed), ClockAction::Exit);
}

#[test]
fn a_closed_request_channel_ends_the_clock_with_a_report() {
    let mut clock = Clock::new(RaftMessage::ElectionTimeOut);
    clock.step(ClockEvent::Tick);
    assert_eq!(clock.step(ClockEvent::ControlClosed), ClockAction::Abort);
    assert_eq!(clock.step(ClockEvent::ControlClosed), ClockAction::Exit);
    assert_eq!(clock.step(ClockEvent::Tick), ClockAction::Exit);
}

#[test]
fn a_failed_delivery_is_reported_and_the_clock_goes_on() {
    let mut clock = Clock::new(RaftMessage::ElectionTimeOut);
    clock.step(ClockEvent::Tick);
    clock.step(ClockEvent::Tick);
    assert_eq!(clock.step(ClockEvent::DeliveryFailed), ClockAction::Report);
    assert_eq!(
        clock.step(ClockEvent::Tick),
        ClockAction::Fire(RaftMessage::ElectionTimeOut)
    );
}
