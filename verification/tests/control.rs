use traffic_light::config_parser::{parse_config, Config, ParseError};
use traffic_light::control::{
    Action, ControlError, ControlLoop, Event, SYNC_POLL_MILLIS, TICK_MILLIS,
};
use traffic_light::tl::{Color, InterlockError, State};

fn cycle() -> Config {
    parse_config("rg 4\nry 2\nrr 2\ngr 8\nyr 2\nrr 2").unwrap()
}

fn synced(fixtures: usize) -> ControlLoop {
    let mut control = ControlLoop::new(cycle(), fixtures).unwrap();
    control.handle(Event::Synced(true));
    control
}

#[test]
fn pauses() {
    assert_eq!(TICK_MILLIS, 100);
    assert_eq!(SYNC_POLL_MILLIS, 200);
}

#[test]
fn a_schedule_that_cannot_be_run_is_turned_down() {
    let empty = Config { states: vec![], offset: 0 };
    assert_eq!(ControlLoop::new(empty, 2).err(), Some(ParseError::EmptyConfiguration));
    let still = Config {
        states: vec![State { traffic_lights_colors: vec![Color::Red], duration: 0 }],
        offset: 0,
    };
    assert_eq!(ControlLoop::new(still, 2).err(), Some(ParseError::EmptyConfiguration));
    let uneven = Config {
        states: vec![
            State { traffic_lights_colors: vec![Color::Red], duration: 1 },
            State { traffic_lights_colors: vec![Color::Red, Color::Green], duration: 1 },
        ],
        offset: 0,
    };
    assert_eq!(ControlLoop::new(uneven, 2).err(), Some(ParseError::MismatchedFixtureCount));
}

#[test]
fn the_loop_waits_for_the_clock_to_be_synchronised() {
    let mut control = ControlLoop::new(cycle(), 2).unwrap();
    assert_eq!(control.config(), &cycle());
    assert_eq!(control.action(), Action::PollSync);
    control.handle(Event::Synced(false));
    assert_eq!(control.action(), Action::Sleep { millis: 200 });
    control.handle(Event::Woke);
    assert_eq!(control.action(), Action::PollSync);
    control.handle(Event::Synced(false));
    control.handle(Event::Woke);
    control.handle(Event::Synced(true));
    assert_eq!(control.action(), Action::ReadClock);
}

#[test]
fn a_tick_asks_each_fixture_in_order_and_pauses() {
    let mut control = synced(2);
    assert_eq!(control.action(), Action::ReadClock);
    control.handle(Event::Time(Some(4)));
    assert_eq!(control.action(), Action::SetColor { fixture: 0, color: Color::Red });
    control.handle(Event::Changed(Ok(())));
    assert_eq!(control.action(), Action::SetColor { fixture: 1, color: Color::Yellow });
    control.handle(Event::Changed(Ok(())));
    assert_eq!(control.action(), Action::Sleep { millis: 100 });
    control.handle(Event::Woke);
    assert_eq!(control.action(), Action::ReadClock);
    control.handle(Event::Time(Some(8)));
    assert_eq!(control.action(), Action::SetColor { fixture: 0, color: Color::Green });
    control.handle(Event::Changed(Ok(())));
    assert_eq!(control.action(), Action::SetColor { fixture: 1, color: Color::Red });
}

#[test]
fn a_denied_transition_does_not_hold_up_the_other_fixtures() {
    let mut control = synced(2);
    control.handle(Event::Time(Some(0)));
    assert_eq!(control.action(), Action::SetColor { fixture: 0, color: Color::Red });
    control.handle(Event::Changed(Err(InterlockError::TransitionDenied)));
    assert_eq!(control.action(), Action::SetColor { fixture: 1, color: Color::Green });
    control.handle(Event::Changed(Err(InterlockError::TransitionDenied)));
    assert_eq!(control.action(), Action::Sleep { millis: 100 });
}

#[test]
fn a_safeguard_failure_stops_the_loop_for_good() {
    let mut control = synced(2);
    control.handle(Event::Time(Some(0)));
    control.handle(Event::Changed(Ok(())));
    control.handle(Event::Changed(Err(InterlockError::SafeguardFailure)));
    let halt = Action::Halt(ControlError::SafeguardFailure { fixture: 1 });
    assert_eq!(control.action(), halt);
    for event in [
        Event::Woke,
        Event::Synced(true),
        Event::Time(Some(3)),
        Event::Time(None),
        Event::Changed(Ok(())),
    ] {
        control.handle(event);
        assert_eq!(control.action(), halt);
    }

    let mut control = synced(2);
    control.handle(Event::Time(Some(0)));
    control.handle(Event::Changed(Err(InterlockError::SafeguardFailure)));
    assert_eq!(control.action(), Action::Halt(ControlError::SafeguardFailure { fixture: 0 }));
}

#[test]
fn a_clock_that_cannot_be_read_stops_the_loop() {
    let mut control = synced(2);
    control.handle(Event::Time(None));
    assert_eq!(control.action(), Action::Halt(ControlError::ClockFailure));
}

#[test]
fn an_event_that_answers_nothing_changes_nothing() {
    let mut control = ControlLoop::new(cycle(), 2).unwrap();
    for event in [Event::Woke, Event::Time(Some(3)), Event::Time(None), Event::Changed(Ok(()))] {
        control.handle(event);
        assert_eq!(control.action(), Action::PollSync);
    }
    control.handle(Event::Synced(true));
    for event in [Event::Woke, Event::Synced(false), Event::Changed(Ok(()))] {
        control.handle(event);
        assert_eq!(control.action(), Action::ReadClock);
    }
    control.handle(Event::Time(Some(0)));
    for event in [Event::Woke, Event::Synced(false), Event::Time(Some(9)), Event::Time(None)] {
        control.handle(event);
        assert_eq!(control.action(), Action::SetColor { fixture: 0, color: Color::Red });
    }
}

#[test]
fn fewer_fixtures_than_the_schedule_names() {
    let mut control = synced(1);
    control.handle(Event::Time(Some(0)));
    assert_eq!(control.action(), Action::SetColor { fixture: 0, color: Color::Red });
    control.handle(Event::Changed(Ok(())));
    assert_eq!(control.action(), Action::Sleep { millis: 100 });
}

#[test]
fn more_fixtures_than_the_schedule_names() {
    let mut control = synced(3);
    control.handle(Event::Time(Some(0)));
    control.handle(Event::Changed(Ok(())));
    assert_eq!(control.action(), Action::SetColor { fixture: 1, color: Color::Green });
    control.handle(Event::Changed(Ok(())));
    assert_eq!(control.action(), Action::Sleep { millis: 100 });
}

#[test]
fn no_fixture_at_all() {
    let mut control = synced(0);
    control.handle(Event::Time(Some(0)));
    assert_eq!(control.action(), Action::Sleep { millis: 100 });
    control.handle(Event::Woke);
    assert_eq!(control.action(), Action::ReadClock);
}

#[test]
fn the_offset_shifts_what_a_tick_shows() {
    let config = parse_config("-5\nrg 4\nry 2\nrr 2\ngr 8\nyr 2\nrr 2").unwrap();
    let mut control = ControlLoop::new(config, 2).unwrap();
    control.handle(Event::Synced(true));
    control.handle(Event::Time(Some(0)));
    assert_eq!(control.action(), Action::SetColor { fixture: 0, color: Color::Red });
    control.handle(Event::Changed(Ok(())));
    assert_eq!(control.action(), Action::SetColor { fixture: 1, color: Color::Yellow });
}
