//! The interlock: how a fixture is switched to a colour, one command at a time.
//!
//! A [`Transition`] decides which output to command next and what the outcome of each
//! command means. It performs no command itself: the caller gives each command to the
//! output and reports whether the output obeyed.
//!
//! A transition to a go colour, green or red, has three steps. First the opposing go
//! colour is put out. Then the target is lit. Last, yellow is put out. All three are
//! safeguarded: where the output does not obey, yellow is raised and the transition
//! ends there, denied; where yellow cannot be raised either, it ends in a safeguard
//! failure. So no failure goes unreported, and a transition that succeeds leaves
//! exactly its target lit.
//! A transition to yellow puts out red and green, whatever comes of it, and raises
//! yellow; only that last command can fail it.

use crate::tl::{can_yellow_go_low, Color, Command, InterlockError, LedSettingError, TrafficLight};
use vstd::prelude::*;

verus! {

/// Where a transition stands: the command whose outcome it waits for, or its end.
#[derive(Clone, Copy, Debug, PartialEq, Eq)]
pub enum Stage {
    /// The first command is out.
    First,
    /// The first command failed; raising yellow in its place is out.
    FirstFallback,
    /// The second command is out.
    Second,
    /// The second command failed; raising yellow in its place is out.
    SecondFallback,
    /// The third command is out.
    Third,
    /// The third command failed; raising yellow in its place is out.
    ThirdFallback,
    /// The transition is over.
    Finished(Result<(), InterlockError>),
}

/// How the outcome of a command bears on the transition.
#[derive(Clone, Copy, Debug, PartialEq, Eq, Structural)]
pub enum Care {
    /// Failure is answered by raising yellow.
    Safeguarded,
    /// The outcome changes nothing.
    BestEffort,
    /// Failure is a safeguard failure.
    Vital,
}

/// What the caller has to do next.
#[derive(Clone, Copy, Debug, PartialEq, Eq)]
pub enum Step {
    /// Give this command to the output and report the outcome.
    Drive(Command),
    /// Nothing more: the transition ended with this result.
    Done(Result<(), InterlockError>),
}

/// The switching of one fixture to `target`.
#[derive(Clone, Copy, Debug, PartialEq, Eq)]
pub struct Transition {
    pub target: Color,
    pub stage: Stage,
}

/// The go colour that must be out before the go colour `target` is lit. Yellow
/// opposes nothing; for it the function gives green.
pub open spec fn opposing(target: Color) -> Color {
    match target {
        Color::Green => Color::Red,
        _ => Color::Green,
    }
}

/// The three commands of a transition to `target`, by position, each with the way
/// its outcome is taken.
pub open spec fn script(target: Color, position: int) -> (Command, Care) {
    match target {
        Color::Yellow => if position == 0 {
            (Command { lamp: Color::Red, high: false }, Care::BestEffort)
        } else if position == 1 {
            (Command { lamp: Color::Green, high: false }, Care::BestEffort)
        } else {
            (Command { lamp: Color::Yellow, high: true }, Care::Vital)
        },
        _ => if position == 0 {
            (Command { lamp: opposing(target), high: false }, Care::Safeguarded)
        } else if position == 1 {
            (Command { lamp: target, high: true }, Care::Safeguarded)
        } else {
            (Command { lamp: Color::Yellow, high: false }, Care::Safeguarded)
        },
    }
}

/// How a safeguarded command ended, from the outcome of the command and, where it
/// failed, of raising yellow.
pub open spec fn safeguarded(done: bool, yellow_raised: bool) -> Result<(), LedSettingError> {
    if done {
        Ok(())
    } else if yellow_raised {
        Err(LedSettingError::UnableToSet)
    } else {
        Err(LedSettingError::UnableToRaiseYellow)
    }
}

/// The stage after a safeguarded command ended as `result` says: `next` where it
/// went through, a denial where yellow stands in for it, and a safeguard failure
/// where yellow could not be raised.
pub open spec fn after_safeguarded(result: Result<(), LedSettingError>, next: Stage) -> Stage {
    match result {
        Ok(_) => next,
        Err(LedSettingError::UnableToSet) => Stage::Finished(Err(InterlockError::TransitionDenied)),
        Err(LedSettingError::UnableToRaiseYellow) => Stage::Finished(
            Err(InterlockError::SafeguardFailure),
        ),
    }
}

/// The stage after a command taken with `care` ended in `done`; `next` is the stage
/// of the command that follows it and `fallback` that of raising yellow in its place.
pub open spec fn after_command(care: Care, done: bool, next: Stage, fallback: Stage) -> Stage {
    match care {
        Care::BestEffort => next,
        Care::Vital => if done {
            next
        } else {
            Stage::Finished(Err(InterlockError::SafeguardFailure))
        },
        Care::Safeguarded => if done {
            after_safeguarded(safeguarded(true, false), next)
        } else {
            fallback
        },
    }
}

/// The end of a transition whose safeguarded command failed, from the outcome of
/// raising yellow.
pub open spec fn after_fallback(yellow_raised: bool) -> Stage {
    after_safeguarded(safeguarded(false, yellow_raised), Stage::Finished(Ok(())))
}

impl Stage {
    /// The most commands that a transition at this stage still issues, the one it
    /// waits on included.
    pub open spec fn steps_left(self) -> nat {
        match self {
            Stage::First => 4,
            Stage::Second => 3,
            Stage::Third => 2,
            Stage::FirstFallback | Stage::SecondFallback | Stage::ThirdFallback => 1,
            Stage::Finished(_) => 0,
        }
    }
}

impl Transition {
    /// The command that the transition waits on, or its result.
    pub open spec fn awaited(self) -> Step {
        match self.stage {
            Stage::First => Step::Drive(script(self.target, 0).0),
            Stage::Second => Step::Drive(script(self.target, 1).0),
            Stage::Third => Step::Drive(script(self.target, 2).0),
            Stage::FirstFallback | Stage::SecondFallback | Stage::ThirdFallback => Step::Drive(
                Command { lamp: Color::Yellow, high: true },
            ),
            Stage::Finished(result) => Step::Done(result),
        }
    }

    /// The transition after the command it waits on ended in `done`. A finished
    /// transition stays as it is.
    pub open spec fn advanced(self, done: bool) -> Transition {
        let stage = match self.stage {
            Stage::First => after_command(
                script(self.target, 0).1,
                done,
                Stage::Second,
                Stage::FirstFallback,
            ),
            Stage::Second => after_command(
                script(self.target, 1).1,
                done,
                Stage::Third,
                Stage::SecondFallback,
            ),
            Stage::Third => after_command(
                script(self.target, 2).1,
                done,
                Stage::Finished(Ok(())),
                Stage::ThirdFallback,
            ),
            Stage::FirstFallback | Stage::SecondFallback | Stage::ThirdFallback => after_fallback(
                done,
            ),
            Stage::Finished(result) => Stage::Finished(result),
        };
        Transition { target: self.target, stage }
    }

    /// A transition to `target` with its first command out.
    pub fn begin(target: Color) -> (r: Transition)
        ensures
            r == (Transition { target, stage: Stage::First }),
    {
        Transition { target, stage: Stage::First }
    }

    /// What the caller has to do next.
    pub fn pending(&self) -> (r: Step)
        ensures
            r == self.awaited(),
    {
        match self.stage {
            Stage::First => Step::Drive(command_at(self.target, 0).0),
            Stage::Second => Step::Drive(command_at(self.target, 1).0),
            Stage::Third => Step::Drive(command_at(self.target, 2).0),
            Stage::FirstFallback | Stage::SecondFallback | Stage::ThirdFallback => Step::Drive(
                Command { lamp: Color::Yellow, high: true },
            ),
            Stage::Finished(result) => Step::Done(result),
        }
    }

    /// Takes in the outcome of the command that the transition waits on.
    pub fn advance(&mut self, done: bool)
        ensures
            *final(self) == old(self).advanced(done),
            final(self).stage.steps_left() < old(self).stage.steps_left() || old(self).stage
                is Finished,
    {
        let stage = match self.stage {
            Stage::First => settle(
                command_at(self.target, 0).1,
                done,
                Stage::Second,
                Stage::FirstFallback,
            ),
            Stage::Second => settle(
                command_at(self.target, 1).1,
                done,
                Stage::Third,
                Stage::SecondFallback,
            ),
            Stage::Third => settle(
                command_at(self.target, 2).1,
                done,
                Stage::Finished(Ok(())),
                Stage::ThirdFallback,
            ),
            Stage::FirstFallback | Stage::SecondFallback | Stage::ThirdFallback => conclude(
                guard(false, done),
                Stage::Finished(Ok(())),
            ),
            Stage::Finished(result) => Stage::Finished(result),
        };
        self.stage = stage;
    }
}

/// The command at `position` of the transition to `target`.
pub fn command_at(target: Color, position: u8) -> (r: (Command, Care))
    ensures
        r == script(target, position as int),
{
    let opposite = match target {
        Color::Green => Color::Red,
        _ => Color::Green,
    };
    match target {
        Color::Yellow => if position == 0 {
            (Command { lamp: Color::Red, high: false }, Care::BestEffort)
        } else if position == 1 {
            (Command { lamp: Color::Green, high: false }, Care::BestEffort)
        } else {
            (Command { lamp: Color::Yellow, high: true }, Care::Vital)
        },
        _ => if position == 0 {
            (Command { lamp: opposite, high: false }, Care::Safeguarded)
        } else if position == 1 {
            (Command { lamp: target, high: true }, Care::Safeguarded)
        } else {
            (Command { lamp: Color::Yellow, high: false }, Care::Safeguarded)
        },
    }
}

/// How a safeguarded command ended.
pub fn guard(done: bool, yellow_raised: bool) -> (r: Result<(), LedSettingError>)
    ensures
        r == safeguarded(done, yellow_raised),
{
    if done {
        Ok(())
    } else if yellow_raised {
        Err(LedSettingError::UnableToSet)
    } else {
        Err(LedSettingError::UnableToRaiseYellow)
    }
}

/// The stage that follows a command.
fn settle(care: Care, done: bool, next: Stage, fallback: Stage) -> (r: Stage)
    ensures
        r == after_command(care, done, next, fallback),
{
    match care {
        Care::BestEffort => next,
        Care::Vital => if done {
            next
        } else {
            Stage::Finished(Err(InterlockError::SafeguardFailure))
        },
        Care::Safeguarded => if done {
            conclude(guard(true, false), next)
        } else {
            fallback
        },
    }
}

/// The stage that follows a safeguarded command, from how it ended.
fn conclude(result: Result<(), LedSettingError>, next: Stage) -> (r: Stage)
    ensures
        r == after_safeguarded(result, next),
{
    match can_yellow_go_low(result) {
        Ok(true) => next,
        Ok(false) => Stage::Finished(Err(InterlockError::TransitionDenied)),
        Err(e) => Stage::Finished(Err(e)),
    }
}

/// What a transition has made sure of on the fixture it runs on. On the way to a go
/// colour: from the second command on the opposing go colour is out, and from the
/// third on the target is lit. At the end: a transition to a go colour that
/// succeeded has left exactly its target lit, one to yellow has lit yellow, and one
/// that was denied has left yellow lit.
pub open spec fn on_course(transition: Transition, light: TrafficLight) -> bool {
    let target = transition.target;
    let go = target != Color::Yellow;
    let cleared = go ==> !light.level(opposing(target));
    let raised = go ==> light.level(target);
    match transition.stage {
        Stage::First | Stage::FirstFallback => true,
        Stage::Second | Stage::SecondFallback => cleared,
        Stage::Third | Stage::ThirdFallback => cleared && raised,
        Stage::Finished(Ok(_)) => if go {
            light == TrafficLight::showing(target)
        } else {
            light.yellow
        },
        Stage::Finished(Err(InterlockError::TransitionDenied)) => light.yellow,
        Stage::Finished(Err(InterlockError::SafeguardFailure)) => true,
    }
}

/// What a transition has made sure of on a fixture whose outputs have all obeyed so
/// far: the lamps that its commands put out are out, and at the end exactly the
/// target is lit.
pub open spec fn all_obeyed(transition: Transition, light: TrafficLight) -> bool {
    let target = transition.target;
    match transition.stage {
        Stage::First => true,
        Stage::Second => !light.level(script(target, 0).0.lamp),
        Stage::Third => if target == Color::Yellow {
            !light.red && !light.green
        } else {
            !light.level(opposing(target)) && light.level(target)
        },
        Stage::Finished(Ok(_)) => light == TrafficLight::showing(target),
        _ => false,
    }
}

/// The transition and the fixture after the commands of the transition were given to
/// the fixture one after another and ended as `outcomes` says, in order. Outcomes
/// beyond the end of the transition stand for no command and change nothing.
pub open spec fn run(transition: Transition, light: TrafficLight, outcomes: Seq<bool>) -> (
    Transition,
    TrafficLight,
)
    decreases outcomes.len(),
{
    if outcomes.len() == 0 {
        (transition, light)
    } else {
        let (before, lit) = run(transition, light, outcomes.drop_last());
        match before.awaited() {
            Step::Drive(command) => (
                before.advanced(outcomes.last()),
                lit.after(command, outcomes.last()),
            ),
            Step::Done(_) => (before, lit),
        }
    }
}

/// The fixture after a series of requests. Each request names the colour asked for
/// and the outcomes of the commands that its transition gave, as far as they were
/// given: a series that stops in the middle of a transition shows the fixture at that
/// instant.
pub open spec fn after_requests(light: TrafficLight, requests: Seq<(Color, Seq<bool>)>) -> TrafficLight
    decreases requests.len(),
{
    if requests.len() == 0 {
        light
    } else {
        let request = requests.last();
        run(
            Transition { target: request.0, stage: Stage::First },
            after_requests(light, requests.drop_last()),
            request.1,
        ).1
    }
}

/// One command of a transition keeps red and green apart and keeps the transition on
/// course, whether the output obeys or not.
pub proof fn lemma_step_keeps_exclusive(transition: Transition, light: TrafficLight, done: bool)
    requires
        light.exclusive(),
        on_course(transition, light),
        transition.awaited() is Drive,
    ensures
        light.after(transition.awaited()->Drive_0, done).exclusive(),
        on_course(transition.advanced(done), light.after(transition.awaited()->Drive_0, done)),
{
}

/// A transition keeps red and green apart at every instant, whatever its commands
/// come to.
pub proof fn lemma_run_keeps_exclusive(transition: Transition, light: TrafficLight, outcomes: Seq<bool>)
    requires
        light.exclusive(),
        on_course(transition, light),
    ensures
        run(transition, light, outcomes).1.exclusive(),
        on_course(run(transition, light, outcomes).0, run(transition, light, outcomes).1),
    decreases outcomes.len(),
{
    if outcomes.len() > 0 {
        lemma_run_keeps_exclusive(transition, light, outcomes.drop_last());
        let (before, lit) = run(transition, light, outcomes.drop_last());
        if before.awaited() is Drive {
            lemma_step_keeps_exclusive(before, lit, outcomes.last());
        }
    }
}

/// Interlock safety: on a fixture that starts with red and green not lit together,
/// they are never lit together, across any series of requests and at any instant of
/// any of them, failing commands included.
pub proof fn lemma_red_and_green_never_together(light: TrafficLight, requests: Seq<(Color, Seq<bool>)>)
    requires
        light.exclusive(),
    ensures
        after_requests(light, requests).exclusive(),
    decreases requests.len(),
{
    if requests.len() > 0 {
        lemma_red_and_green_never_together(light, requests.drop_last());
        let request = requests.last();
        lemma_run_keeps_exclusive(
            Transition { target: request.0, stage: Stage::First },
            after_requests(light, requests.drop_last()),
            request.1,
        );
    }
}

/// A finished transition has done what its result says: after success on the way to
/// a go colour exactly the target is lit; after success on the way to yellow, yellow
/// is lit; after a denial yellow is lit.
pub proof fn lemma_result_shows(target: Color, light: TrafficLight, outcomes: Seq<bool>)
    ensures
        ({
            let (end, lit) = run(Transition { target, stage: Stage::First }, light, outcomes);
            &&& end.target == target
            &&& end.stage == Stage::Finished(Ok(())) && target != Color::Yellow ==> lit
                == TrafficLight::showing(target)
            &&& end.stage == Stage::Finished(Ok(())) ==> lit.level(target)
            &&& end.stage == Stage::Finished(Err(InterlockError::TransitionDenied)) ==> lit.yellow
        }),
{
    lemma_run_on_course(Transition { target, stage: Stage::First }, light, outcomes);
}

/// A transition stays on course and keeps its target.
pub proof fn lemma_run_on_course(transition: Transition, light: TrafficLight, outcomes: Seq<bool>)
    requires
        on_course(transition, light),
    ensures
        on_course(run(transition, light, outcomes).0, run(transition, light, outcomes).1),
        run(transition, light, outcomes).0.target == transition.target,
    decreases outcomes.len(),
{
    if outcomes.len() > 0 {
        lemma_run_on_course(transition, light, outcomes.drop_last());
    }
}

/// Every transition ends: after four commands at the latest it has a result, and
/// the commands still to come get fewer with each one given.
pub proof fn lemma_run_ends(target: Color, light: TrafficLight, outcomes: Seq<bool>)
    ensures
        ({
            let end = run(Transition { target, stage: Stage::First }, light, outcomes).0;
            &&& end.stage.steps_left() + outcomes.len() <= 4 || end.stage is Finished
            &&& outcomes.len() >= 4 ==> end.stage is Finished
        }),
    decreases outcomes.len(),
{
    if outcomes.len() > 0 {
        lemma_run_ends(target, light, outcomes.drop_last());
    }
}

/// The result of a transition, read off the outcomes of its commands. On the way to
/// yellow only the third command counts. On the way to a go colour the first command
/// that fails decides, by whether yellow could be raised after it; putting yellow out
/// in the end is such a command too.
pub open spec fn result_of(target: Color, outcomes: Seq<bool>) -> Result<(), InterlockError> {
    if target == Color::Yellow {
        if outcomes[2] {
            Ok(())
        } else {
            Err(InterlockError::SafeguardFailure)
        }
    } else if !outcomes[0] {
        fallen_back(outcomes[1])
    } else if !outcomes[1] {
        fallen_back(outcomes[2])
    } else if !outcomes[2] {
        fallen_back(outcomes[3])
    } else {
        Ok(())
    }
}

/// The result of a transition whose safeguarded command failed, by whether yellow
/// could be raised.
pub open spec fn fallen_back(yellow_raised: bool) -> Result<(), InterlockError> {
    if yellow_raised {
        Err(InterlockError::TransitionDenied)
    } else {
        Err(InterlockError::SafeguardFailure)
    }
}

/// `outcomes` covers every command of the transition to `target`: on the way to
/// yellow three; on the way to a go colour the commands up to the first that failed
/// and the raising of yellow after it, or all three where none failed.
pub open spec fn complete(target: Color, outcomes: Seq<bool>) -> bool {
    ||| outcomes.len() >= 4
    ||| outcomes.len() == 3 && (target == Color::Yellow || !outcomes[0] || !outcomes[1]
        || outcomes[2])
    ||| outcomes.len() == 2 && target != Color::Yellow && !outcomes[0]
}

/// A transition whose commands ended as `outcomes` says has the result that
/// [`result_of`] reads off them, once `outcomes` covers all its commands.
pub proof fn lemma_result_of(target: Color, light: TrafficLight, outcomes: Seq<bool>)
    requires
        complete(target, outcomes),
    ensures
        run(Transition { target, stage: Stage::First }, light, outcomes).0.stage == Stage::Finished(
            result_of(target, outcomes),
        ),
    decreases outcomes.len(),
{
    let begin = Transition { target, stage: Stage::First };
    let o0 = outcomes.take(0);
    let o1 = outcomes.take(1);
    let o2 = outcomes.take(2);
    assert(o2.drop_last() =~= o1);
    assert(o1.drop_last() =~= o0);
    assert(run(begin, light, o0) == (begin, light));
    assert(run(begin, light, o1).0 == begin.advanced(outcomes[0]));
    assert(run(begin, light, o2).0 == begin.advanced(outcomes[0]).advanced(outcomes[1]));
    if outcomes.len() == 2 {
        assert(outcomes =~= o2);
    } else {
        let o3 = outcomes.take(3);
        assert(o3.drop_last() =~= o2);
        assert(run(begin, light, o3).0 == begin.advanced(outcomes[0]).advanced(
            outcomes[1],
        ).advanced(outcomes[2]));
        if outcomes.len() == 3 {
            assert(outcomes =~= o3);
        } else if outcomes.len() == 4 {
            assert(outcomes.drop_last() =~= o3);
        } else {
            let shorter = outcomes.drop_last();
            lemma_result_of(target, light, shorter);
            assert(result_of(target, shorter) == result_of(target, outcomes));
        }
    }
}

/// No failure goes unreported: a transition to a go colour succeeds only where all
/// three of its commands went through. Where the opposing colour went out and the
/// target was lit but yellow could not be put out, the transition is denied and
/// leaves yellow lit, or fails where yellow does not answer to raising either.
pub proof fn lemma_failed_settle_is_reported(target: Color, light: TrafficLight, outcomes: Seq<bool>)
    requires
        target != Color::Yellow,
        complete(target, outcomes),
    ensures
        ({
            let (end, lit) = run(Transition { target, stage: Stage::First }, light, outcomes);
            &&& end.stage == Stage::Finished(Ok(())) <==> outcomes[0] && outcomes[1] && outcomes[2]
            &&& outcomes[0] && outcomes[1] && !outcomes[2] ==> end.stage == Stage::Finished(
                fallen_back(outcomes[3]),
            )
            &&& outcomes[0] && outcomes[1] && !outcomes[2] && outcomes[3] ==> lit.yellow
        }),
{
    lemma_result_of(target, light, outcomes);
    lemma_run_on_course(Transition { target, stage: Stage::First }, light, outcomes);
}

/// Fallback: where the opposing go colour goes out, lighting the target fails and
/// yellow is raised, the transition is denied, not failed; it leaves yellow lit, the
/// opposing go colour out and the target as it was, so red and green are not lit
/// together.
pub proof fn lemma_failed_go_falls_back_to_yellow(target: Color, light: TrafficLight, outcomes: Seq<bool>)
    requires
        target != Color::Yellow,
        outcomes.len() >= 3,
        outcomes[0],
        !outcomes[1],
        outcomes[2],
    ensures
        ({
            let (end, lit) = run(Transition { target, stage: Stage::First }, light, outcomes);
            &&& end.stage == Stage::Finished(Err(InterlockError::TransitionDenied))
            &&& lit.yellow
            &&& !lit.level(opposing(target))
            &&& lit.level(target) == light.level(target)
            &&& lit.exclusive()
        }),
    decreases outcomes.len(),
{
    let begin = Transition { target, stage: Stage::First };
    if outcomes.len() == 3 {
        let o0 = outcomes.take(0);
        let o1 = outcomes.take(1);
        let o2 = outcomes.take(2);
        assert(outcomes.drop_last() =~= o2);
        assert(o2.drop_last() =~= o1);
        assert(o1.drop_last() =~= o0);
        assert(run(begin, light, o0) == (begin, light));
        assert(run(begin, light, o1).0.stage == Stage::Second);
        assert(run(begin, light, o2).0.stage == Stage::SecondFallback);
    } else {
        let shorter = outcomes.drop_last();
        lemma_failed_go_falls_back_to_yellow(target, light, shorter);
    }
}

} // verus!
