use traffic_light::interlock::{command_at, guard, Care, Stage, Step, Transition};
use traffic_light::tl::{
    can_yellow_go_low, Color, ColorSetter, Command, InterlockError, LedSettingError, TrafficLight,
};

const COLORS: [Color; 3] = [Color::Red, Color::Yellow, Color::Green];

fn light(red: bool, yellow: bool, green: bool) -> TrafficLight {
    TrafficLight { red, yellow, green }
}

fn low(lamp: Color) -> Command {
    Command { lamp, high: false }
}

fn high(lamp: Color) -> Command {
    Command { lamp, high: true }
}

/// Switches `fixture` to `target`; command number `k` goes through where `obeys(k)`.
/// Returns the commands given, the fixture after each, and the result.
fn switch(
    fixture: &mut TrafficLight,
    target: Color,
    obeys: &dyn Fn(usize, Command) -> bool,
) -> (Vec<Command>, Vec<TrafficLight>, Result<(), InterlockError>) {
    let mut transition = Transition::begin(target);
    let mut commands = Vec::new();
    let mut seen = Vec::new();
    loop {
        match transition.pending() {
            Step::Drive(command) => {
                let done = obeys(commands.len(), command);
                fixture.apply(command, done);
                transition.advance(done);
                commands.push(command);
                seen.push(*fixture);
                assert!(commands.len() <= 4);
            }
            Step::Done(result) => return (commands, seen, result),
        }
    }
}

#[test]
fn yellow_may_go_low_only_after_success() {
    assert_eq!(can_yellow_go_low(Ok(())), Ok(true));
    assert_eq!(can_yellow_go_low(Err(LedSettingError::UnableToSet)), Ok(false));
    assert_eq!(
        can_yellow_go_low(Err(LedSettingError::UnableToRaiseYellow)),
        Err(InterlockError::SafeguardFailure)
    );
}

#[test]
fn how_a_safeguarded_command_ends() {
    assert_eq!(guard(true, true), Ok(()));
    assert_eq!(guard(true, false), Ok(()));
    assert_eq!(guard(false, true), Err(LedSettingError::UnableToSet));
    assert_eq!(guard(false, false), Err(LedSettingError::UnableToRaiseYellow));
}

#[test]
fn scripts() {
    assert_eq!(command_at(Color::Green, 0), (low(Color::Red), Care::Safeguarded));
    assert_eq!(command_at(Color::Green, 1), (high(Color::Green), Care::Safeguarded));
    assert_eq!(command_at(Color::Green, 2), (low(Color::Yellow), Care::Safeguarded));
    assert_eq!(command_at(Color::Red, 0), (low(Color::Green), Care::Safeguarded));
    assert_eq!(command_at(Color::Red, 1), (high(Color::Red), Care::Safeguarded));
    assert_eq!(command_at(Color::Red, 2), (low(Color::Yellow), Care::Safeguarded));
    assert_eq!(command_at(Color::Yellow, 0), (low(Color::Red), Care::BestEffort));
    assert_eq!(command_at(Color::Yellow, 1), (low(Color::Green), Care::BestEffort));
    assert_eq!(command_at(Color::Yellow, 2), (high(Color::Yellow), Care::Vital));
}

#[test]
fn applying_commands() {
    let mut fixture = TrafficLight::dark();
    assert_eq!(fixture, light(false, false, false));
    fixture.apply(high(Color::Red), true);
    assert_eq!(fixture, light(true, false, false));
    fixture.apply(high(Color::Green), false);
    assert_eq!(fixture, light(true, false, false));
    fixture.apply(high(Color::Yellow), true);
    assert_eq!(fixture, light(true, true, false));
    fixture.apply(low(Color::Red), false);
    assert_eq!(fixture, light(true, true, false));
    fixture.apply(low(Color::Red), true);
    assert_eq!(fixture, light(false, true, false));
    fixture.apply(high(Color::Green), true);
    assert_eq!(fixture, light(false, true, true));
}

#[test]
fn red_to_green() {
    let mut fixture = light(true, false, false);
    let (commands, seen, result) = switch(&mut fixture, Color::Green, &|_, _| true);
    assert_eq!(result, Ok(()));
    assert_eq!(commands, vec![low(Color::Red), high(Color::Green), low(Color::Yellow)]);
    assert_eq!(
        seen,
        vec![light(false, false, false), light(false, false, true), light(false, false, true)]
    );
}

#[test]
fn yellow_to_red() {
    let mut fixture = light(false, true, false);
    let (commands, _, result) = switch(&mut fixture, Color::Red, &|_, _| true);
    assert_eq!(result, Ok(()));
    assert_eq!(commands, vec![low(Color::Green), high(Color::Red), low(Color::Yellow)]);
    assert_eq!(fixture, light(true, false, false));
}

#[test]
fn green_to_yellow() {
    let mut fixture = light(false, false, true);
    let (commands, _, result) = switch(&mut fixture, Color::Yellow, &|_, _| true);
    assert_eq!(result, Ok(()));
    assert_eq!(commands, vec![low(Color::Red), low(Color::Green), high(Color::Yellow)]);
    assert_eq!(fixture, light(false, true, false));
}

#[test]
fn asking_again_for_the_colour_shown_changes_nothing() {
    for color in COLORS {
        let mut fixture = TrafficLight::dark();
        assert_eq!(fixture.set_color(&color), Ok(()));
        let shown = fixture;
        let (_, seen, result) = switch(&mut fixture, color, &|_, _| true);
        assert_eq!(result, Ok(()));
        assert_eq!(fixture, shown);
        assert!(seen.iter().all(|l| *l == shown));
    }
}

#[test]
fn a_fixture_that_obeys_shows_what_it_is_asked_for() {
    for start in 0..8 {
        for color in COLORS {
            let mut fixture = light(start & 1 != 0, start & 2 != 0, start & 4 != 0);
            assert_eq!(fixture.set_color(&color), Ok(()));
            assert_eq!(
                fixture,
                light(color == Color::Red, color == Color::Yellow, color == Color::Green)
            );
        }
    }
}

#[test]
fn failing_to_light_the_target_falls_back_to_yellow() {
    let mut fixture = light(true, false, false);
    let (commands, _, result) = switch(&mut fixture, Color::Green, &|_, c| c != high(Color::Green));
    assert_eq!(result, Err(InterlockError::TransitionDenied));
    assert_eq!(commands, vec![low(Color::Red), high(Color::Green), high(Color::Yellow)]);
    assert_eq!(fixture, light(false, true, false));

    let mut fixture = light(false, false, true);
    let (commands, _, result) = switch(&mut fixture, Color::Red, &|_, c| c != high(Color::Red));
    assert_eq!(result, Err(InterlockError::TransitionDenied));
    assert_eq!(commands, vec![low(Color::Green), high(Color::Red), high(Color::Yellow)]);
    assert_eq!(fixture, light(false, true, false));
}

#[test]
fn failing_to_put_out_the_opposing_colour_stops_the_transition() {
    let mut fixture = light(true, false, false);
    let (commands, _, result) = switch(&mut fixture, Color::Green, &|_, c| c != low(Color::Red));
    assert_eq!(result, Err(InterlockError::TransitionDenied));
    assert_eq!(commands, vec![low(Color::Red), high(Color::Yellow)]);
    assert_eq!(fixture, light(true, true, false));

    let mut fixture = light(false, false, true);
    let (commands, _, result) = switch(&mut fixture, Color::Red, &|_, c| c != low(Color::Green));
    assert_eq!(result, Err(InterlockError::TransitionDenied));
    assert_eq!(commands, vec![low(Color::Green), high(Color::Yellow)]);
    assert_eq!(fixture, light(false, true, true));
}

#[test]
fn failing_to_raise_the_safeguard_is_fatal() {
    let mut fixture = light(true, false, false);
    let (commands, _, result) = switch(&mut fixture, Color::Green, &|_, c| c.lamp == Color::Red);
    assert_eq!(result, Err(InterlockError::SafeguardFailure));
    assert_eq!(commands, vec![low(Color::Red), high(Color::Green), high(Color::Yellow)]);
    assert_eq!(fixture, light(false, false, false));

    let mut fixture = light(true, false, false);
    let (commands, _, result) = switch(&mut fixture, Color::Green, &|_, _| false);
    assert_eq!(result, Err(InterlockError::SafeguardFailure));
    assert_eq!(commands, vec![low(Color::Red), high(Color::Yellow)]);
    assert_eq!(fixture, light(true, false, false));
}

#[test]
fn failing_to_put_out_yellow_denies_the_transition() {
    for (target, opposing) in [(Color::Green, Color::Red), (Color::Red, Color::Green)] {
        let mut fixture = light(opposing == Color::Red, true, opposing == Color::Green);
        let (commands, _, result) = switch(&mut fixture, target, &|_, c| c != low(Color::Yellow));
        assert_eq!(result, Err(InterlockError::TransitionDenied));
        assert_eq!(
            commands,
            vec![low(opposing), high(target), low(Color::Yellow), high(Color::Yellow)]
        );
        assert_eq!(fixture, light(target == Color::Red, true, target == Color::Green));
    }
}

#[test]
fn a_yellow_output_that_answers_to_nothing_is_fatal() {
    for (target, opposing) in [(Color::Green, Color::Red), (Color::Red, Color::Green)] {
        let mut fixture = light(opposing == Color::Red, false, opposing == Color::Green);
        let (commands, _, result) = switch(&mut fixture, target, &|_, c| c.lamp != Color::Yellow);
        assert_eq!(result, Err(InterlockError::SafeguardFailure));
        assert_eq!(
            commands,
            vec![low(opposing), high(target), low(Color::Yellow), high(Color::Yellow)]
        );
        assert_eq!(fixture, light(target == Color::Red, false, target == Color::Green));
    }
}

#[test]
fn a_transition_to_a_go_colour_succeeds_only_where_every_command_went_through() {
    for target in [Color::Green, Color::Red] {
        for start in 0..8 {
            for faults in 0..16usize {
                let mut fixture = light(start & 1 != 0, start & 2 != 0, start & 4 != 0);
                let (commands, _, result) =
                    switch(&mut fixture, target, &|k, _| faults & (1 << k) == 0);
                assert!(commands.len() <= 4);
                let all_three = faults & 0b111 == 0;
                assert_eq!(result == Ok(()), all_three, "{:?} {}", target, faults);
                if all_three {
                    assert_eq!(commands.len(), 3);
                    assert_eq!(
                        fixture,
                        light(target == Color::Red, false, target == Color::Green)
                    );
                } else {
                    // the command after the first failure is the raising of yellow
                    let failed = (faults & 0b111).trailing_zeros() as usize;
                    assert_eq!(commands.len(), failed + 2);
                    assert_eq!(commands[failed + 1], high(Color::Yellow));
                    let raised = faults & (1 << (failed + 1)) == 0;
                    let expected = if raised {
                        InterlockError::TransitionDenied
                    } else {
                        InterlockError::SafeguardFailure
                    };
                    assert_eq!(result, Err(expected));
                    if raised {
                        assert!(fixture.yellow);
                    }
                }
            }
        }
    }
}

#[test]
fn on_the_way_to_yellow_only_yellow_itself_can_fail() {
    let mut fixture = light(true, false, true);
    let (commands, _, result) = switch(&mut fixture, Color::Yellow, &|_, c| c.lamp == Color::Yellow);
    assert_eq!(result, Ok(()));
    assert_eq!(commands, vec![low(Color::Red), low(Color::Green), high(Color::Yellow)]);
    assert_eq!(fixture, light(true, true, true));

    let mut fixture = light(true, false, false);
    let (commands, _, result) = switch(&mut fixture, Color::Yellow, &|_, c| c.lamp != Color::Yellow);
    assert_eq!(result, Err(InterlockError::SafeguardFailure));
    assert_eq!(commands, vec![low(Color::Red), low(Color::Green), high(Color::Yellow)]);
    assert_eq!(fixture, light(false, false, false));
}

#[test]
fn a_finished_transition_stays_finished() {
    let mut transition = Transition::begin(Color::Green);
    for _ in 0..3 {
        transition.advance(true);
    }
    assert_eq!(transition.stage, Stage::Finished(Ok(())));
    assert_eq!(transition.pending(), Step::Done(Ok(())));
    transition.advance(false);
    assert_eq!(transition, Transition { target: Color::Green, stage: Stage::Finished(Ok(())) });
    transition.advance(true);
    assert_eq!(transition.pending(), Step::Done(Ok(())));
}

#[test]
fn stages_of_a_transition() {
    let mut transition = Transition::begin(Color::Red);
    assert_eq!(transition, Transition { target: Color::Red, stage: Stage::First });
    transition.advance(true);
    assert_eq!(transition.stage, Stage::Second);
    transition.advance(false);
    assert_eq!(transition.stage, Stage::SecondFallback);
    assert_eq!(transition.pending(), Step::Drive(high(Color::Yellow)));
    transition.advance(true);
    assert_eq!(transition.stage, Stage::Finished(Err(InterlockError::TransitionDenied)));

    let mut transition = Transition::begin(Color::Green);
    transition.advance(true);
    transition.advance(true);
    assert_eq!(transition.stage, Stage::Third);
    assert_eq!(transition.pending(), Step::Drive(low(Color::Yellow)));
    transition.advance(false);
    assert_eq!(transition.stage, Stage::ThirdFallback);
    assert_eq!(transition.pending(), Step::Drive(high(Color::Yellow)));
    transition.advance(true);
    assert_eq!(transition.stage, Stage::Finished(Err(InterlockError::TransitionDenied)));

    let mut transition = Transition::begin(Color::Red);
    transition.advance(false);
    assert_eq!(transition.stage, Stage::FirstFallback);
    assert_eq!(transition.pending(), Step::Drive(high(Color::Yellow)));
    transition.advance(false);
    assert_eq!(transition.stage, Stage::Finished(Err(InterlockError::SafeguardFailure)));
}

/// Every series of up to three requests, each with every pattern of failing commands,
/// from every start with red and green apart.
#[test]
fn red_and_green_are_never_lit_together() {
    fn explore(fixture: TrafficLight, depth: usize) {
        if depth == 0 {
            return;
        }
        for target in COLORS {
            for faults in 0..16usize {
                let mut next = fixture;
                let (_, seen, result) =
                    switch(&mut next, target, &|k, _| faults & (1 << k) == 0);
                for instant in &seen {
                    assert!(!(instant.red && instant.green), "{:?} {:?} {}", fixture, target, faults);
                }
                if result == Err(InterlockError::TransitionDenied) {
                    assert!(next.yellow);
                }
                if result == Ok(()) {
                    assert!(next.level_of(target));
                    if target != Color::Yellow {
                        assert_eq!(
                            next,
                            light(target == Color::Red, false, target == Color::Green)
                        );
                    }
                }
                if faults < 4 {
                    explore(next, depth - 1);
                }
            }
        }
    }
    trait LevelOf {
        fn level_of(&self, lamp: Color) -> bool;
    }
    impl LevelOf for TrafficLight {
        fn level_of(&self, lamp: Color) -> bool {
            match lamp {
                Color::Red => self.red,
                Color::Yellow => self.yellow,
                Color::Green => self.green,
            }
        }
    }
    for start in 0..8 {
        let fixture = light(start & 1 != 0, start & 2 != 0, start & 4 != 0);
        if !(fixture.red && fixture.green) {
            explore(fixture, 3);
        }
    }
}
