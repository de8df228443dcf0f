//! Colours, timed states, and one fixture with its three outputs.

use crate::interlock::{Step, Transition};
use vstd::prelude::*;

verus! {

/// A colour that a fixture can show; it also names the output that lights it.
#[derive(Clone, Copy, Debug, PartialEq, Eq, Structural)]
pub enum Color {
    Green,
    Yellow,
    Red,
}

/// One step of the cycle: a colour for each fixture, shown for `duration` seconds.
#[derive(Clone, Debug, PartialEq, Eq)]
pub struct State {
    /// Information of the color in each traffic light, in order.
    pub traffic_lights_colors: Vec<Color>,
    /// Duration of the state in seconds.
    pub duration: u64,
}

/// What a [`State`] stands for: the colours by fixture position and the duration.
pub struct StateView {
    pub colors: Seq<Color>,
    pub duration: nat,
}

impl View for State {
    type V = StateView;

    open spec fn view(&self) -> StateView {
        StateView { colors: self.traffic_lights_colors@, duration: self.duration as nat }
    }
}

impl DeepView for State {
    type V = StateView;

    open spec fn deep_view(&self) -> StateView {
        self@
    }
}

/// An order to one output of a fixture: light the lamp of colour `lamp`, or put it out.
#[derive(Clone, Copy, Debug, PartialEq, Eq, Structural)]
pub struct Command {
    pub lamp: Color,
    pub high: bool,
}

/// Why a command with the yellow safeguard behind it did not go through.
#[derive(Clone, Copy, Debug, PartialEq, Eq, Structural)]
pub enum LedSettingError {
    /// The output did not obey; yellow was raised in its place.
    UnableToSet,
    /// The output did not obey, and yellow could not be raised either.
    UnableToRaiseYellow,
}

/// Why a fixture does not show the colour that was asked for.
#[derive(Clone, Copy, Debug, PartialEq, Eq, Structural)]
pub enum InterlockError {
    /// An output did not obey. The fixture was left on yellow; the caller goes on.
    TransitionDenied,
    /// Yellow could not be raised: the fixture has no safe state left.
    SafeguardFailure,
}

/// Whether a transition may go on to put yellow out, given how a safeguarded command
/// ended: yes where it went through, no where yellow stands in for it, and a
/// [`InterlockError::SafeguardFailure`] where yellow could not be raised.
pub fn can_yellow_go_low(res: Result<(), LedSettingError>) -> (r: Result<bool, InterlockError>)
    ensures
        r == (match res {
            Ok(_) => Ok::<bool, InterlockError>(true),
            Err(LedSettingError::UnableToSet) => Ok::<bool, InterlockError>(false),
            Err(LedSettingError::UnableToRaiseYellow) => Err::<bool, InterlockError>(
                InterlockError::SafeguardFailure,
            ),
        }),
{
    match res {
        Ok(_) => Ok(true),
        Err(LedSettingError::UnableToSet) => Ok(false),
        Err(LedSettingError::UnableToRaiseYellow) => Err(InterlockError::SafeguardFailure),
    }
}

/// The three outputs of one fixture, each as the level it holds: `true` is high, the
/// lamp is lit.
#[derive(Clone, Copy, Debug, PartialEq, Eq, Structural)]
pub struct TrafficLight {
    pub red: bool,
    pub yellow: bool,
    pub green: bool,
}

impl TrafficLight {
    /// The fixture with the lamp of `color` lit and the other two out.
    pub open spec fn showing(color: Color) -> TrafficLight {
        TrafficLight {
            red: color == Color::Red,
            yellow: color == Color::Yellow,
            green: color == Color::Green,
        }
    }

    /// Red and green are not lit together.
    pub open spec fn exclusive(self) -> bool {
        !(self.red && self.green)
    }

    /// The level of the output that lights `lamp`.
    pub open spec fn level(self, lamp: Color) -> bool {
        match lamp {
            Color::Red => self.red,
            Color::Yellow => self.yellow,
            Color::Green => self.green,
        }
    }

    /// The fixture after `command` was given to it. Where the output obeyed
    /// (`done`), it holds the level ordered; where it did not, it holds the level it
    /// had: an output that fails is stuck. The other two outputs keep their levels.
    pub open spec fn after(self, command: Command, done: bool) -> TrafficLight {
        if !done {
            self
        } else {
            match command.lamp {
                Color::Red => TrafficLight { red: command.high, ..self },
                Color::Yellow => TrafficLight { yellow: command.high, ..self },
                Color::Green => TrafficLight { green: command.high, ..self },
            }
        }
    }

    /// A fixture with all three lamps out.
    pub fn dark() -> (r: TrafficLight)
        ensures
            r == (TrafficLight { red: false, yellow: false, green: false }),
    {
        TrafficLight { red: false, yellow: false, green: false }
    }

    /// Records that `command` was given to the fixture and whether the output obeyed.
    pub fn apply(&mut self, command: Command, done: bool)
        ensures
            *final(self) == old(self).after(command, done),
    {
        if done {
            match command.lamp {
                Color::Red => {
                    self.red = command.high;
                },
                Color::Yellow => {
                    self.yellow = command.high;
                },
                Color::Green => {
                    self.green = command.high;
                },
            }
        }
    }
}

/// Something that can be asked to show a colour.
pub trait ColorSetter {
    fn set_color(&mut self, color: &Color) -> Result<(), InterlockError>;
}

impl ColorSetter for TrafficLight {
    /// Switches a fixture whose outputs all obey: it ends with the lamp of `color`
    /// lit and the other two out, and never fails.
    fn set_color(&mut self, color: &Color) -> (r: Result<(), InterlockError>)
        ensures
            r is Ok,
            *final(self) == TrafficLight::showing(*color),
    {
        let mut transition = Transition::begin(*color);
        loop
            invariant
                transition.target == *color,
                crate::interlock::all_obeyed(transition, *self),
            decreases transition.stage.steps_left(),
        {
            match transition.pending() {
                Step::Drive(command) => {
                    self.apply(command, true);
                    transition.advance(true);
                },
                Step::Done(result) => {
                    return result;
                },
            }
        }
    }
}

} // verus!
