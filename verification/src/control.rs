//! The control loop as a state machine.
//!
//! The loop waits once until the clock is synchronised. Then, tick after tick, it
//! reads the clock, asks every fixture in index order for the colour that the active
//! state gives it, and pauses. [`ControlLoop`] decides each of these steps and
//! performs none: [`ControlLoop::action`] says what is to be done, the caller does it
//! and reports what came of it to [`ControlLoop::handle`].

use crate::clock::{active_index, active_state, lemma_active_state_valid};
use crate::config_parser::{check_states, validate, Config, ConfigView, ParseError};
use crate::tl::{Color, InterlockError};
use vstd::prelude::*;

verus! {

/// The pause between two ticks, in milliseconds.
pub const TICK_MILLIS: u32 = 100;

/// The pause between two looks at the synchronisation of the clock, in milliseconds.
pub const SYNC_POLL_MILLIS: u32 = 200;

/// Why the control loop stopped.
#[derive(Clone, Copy, Debug, PartialEq, Eq)]
pub enum ControlError {
    /// The clock could not be read.
    ClockFailure,
    /// The fixture at this index could not be brought to a safe state.
    SafeguardFailure { fixture: usize },
}

/// What the caller has to do next.
#[derive(Clone, Copy, Debug, PartialEq, Eq)]
pub enum Action {
    /// Find out whether the clock is synchronised; answer with [`Event::Synced`].
    PollSync,
    /// Pause for about this long; answer with [`Event::Woke`].
    Sleep { millis: u32 },
    /// Read the clock; answer with [`Event::Time`].
    ReadClock,
    /// Ask this fixture for this colour; answer with [`Event::Changed`].
    SetColor { fixture: usize, color: Color },
    /// Stop: the loop has failed for good.
    Halt(ControlError),
}

/// What came of an action.
#[derive(Clone, Copy, Debug, PartialEq, Eq)]
pub enum Event {
    /// Whether the clock is synchronised.
    Synced(bool),
    /// The pause is over.
    Woke,
    /// Seconds since the epoch, or `None` where the clock could not be read.
    Time(Option<i64>),
    /// What the fixture reported.
    Changed(Result<(), InterlockError>),
}

/// Where the loop stands: the action whose outcome it waits for.
#[derive(Clone, Copy, Debug, PartialEq, Eq)]
pub enum Phase {
    /// Waiting to hear whether the clock is synchronised.
    Syncing,
    /// Pausing before the next look at the synchronisation.
    SyncPause,
    /// Waiting for the time.
    Reading,
    /// Waiting for fixture `fixture` to report on the colour that state `state`
    /// gives it.
    Updating { state: usize, fixture: usize },
    /// Pausing before the next tick.
    Pausing,
    /// Stopped for good.
    Halted(ControlError),
}

/// What a [`ControlLoop`] stands for.
pub struct ControlView {
    pub config: ConfigView,
    pub fixtures: usize,
    pub phase: Phase,
}

impl ControlView {
    /// The number of fixtures that a tick updates: those that exist and that the
    /// schedule names.
    pub open spec fn reach(self) -> int {
        if self.config.states.len() == 0 {
            0
        } else if self.fixtures <= self.config.states[0].colors.len() {
            self.fixtures as int
        } else {
            self.config.states[0].colors.len() as int
        }
    }

    /// The schedule can be run, and a fixture that is being updated is one that the
    /// tick reaches.
    pub open spec fn wf(self) -> bool {
        &&& self.config.wf()
        &&& self.phase matches Phase::Updating { state, fixture } ==> state
            < self.config.states.len() && fixture < self.reach()
    }

    /// The phase in which fixture `fixture` of state `state` is next, or the pause
    /// where the tick reaches no such fixture.
    pub open spec fn updating(self, state: usize, fixture: int) -> Phase {
        if fixture < self.reach() {
            Phase::Updating { state, fixture: fixture as usize }
        } else {
            Phase::Pausing
        }
    }

    /// What is to be done in this phase.
    pub open spec fn action(self) -> Action {
        match self.phase {
            Phase::Syncing => Action::PollSync,
            Phase::SyncPause => Action::Sleep { millis: SYNC_POLL_MILLIS },
            Phase::Reading => Action::ReadClock,
            Phase::Updating { state, fixture } => Action::SetColor {
                fixture,
                color: self.config.states[state as int].colors[fixture as int],
            },
            Phase::Pausing => Action::Sleep { millis: TICK_MILLIS },
            Phase::Halted(error) => Action::Halt(error),
        }
    }

    /// The phase after `event`. An event that does not answer the action of the phase
    /// changes nothing.
    pub open spec fn next_phase(self, event: Event) -> Phase {
        match (self.phase, event) {
            (Phase::Syncing, Event::Synced(true)) => Phase::Reading,
            (Phase::Syncing, Event::Synced(false)) => Phase::SyncPause,
            (Phase::SyncPause, Event::Woke) => Phase::Syncing,
            (Phase::Reading, Event::Time(Some(now))) => self.updating(
                active_state(self.config, now as int) as usize,
                0,
            ),
            (Phase::Reading, Event::Time(None)) => Phase::Halted(ControlError::ClockFailure),
            (
                Phase::Updating { state, fixture },
                Event::Changed(Err(InterlockError::SafeguardFailure)),
            ) => Phase::Halted(ControlError::SafeguardFailure { fixture }),
            (Phase::Updating { state, fixture }, Event::Changed(_)) => self.updating(
                state,
                fixture + 1,
            ),
            (Phase::Pausing, Event::Woke) => Phase::Reading,
            (phase, _) => phase,
        }
    }

    /// The loop after `event`.
    pub open spec fn handled(self, event: Event) -> ControlView {
        ControlView { phase: self.next_phase(event), ..self }
    }

    /// The loop after a series of events, in order.
    pub open spec fn handled_all(self, events: Seq<Event>) -> ControlView
        decreases events.len(),
    {
        if events.len() == 0 {
            self
        } else {
            self.handled_all(events.drop_last()).handled(events.last())
        }
    }
}

/// An event leaves a loop that can run a loop that can run.
pub proof fn lemma_handled_wf(view: ControlView, event: Event)
    requires
        view.wf(),
    ensures
        view.handled(event).wf(),
{
    if let Event::Time(Some(now)) = event {
        lemma_active_state_valid(view.config, now as int);
    }
}

/// A loop that has stopped stays stopped, whatever is reported to it.
pub proof fn lemma_halted_for_good(view: ControlView, events: Seq<Event>)
    requires
        view.phase is Halted,
    ensures
        view.handled_all(events) == view,
    decreases events.len(),
{
    if events.len() > 0 {
        lemma_halted_for_good(view, events.drop_last());
    }
}

/// Within a tick the fixtures are asked in index order, and a denied transition
/// holds up none of them: after `reports.len()` fixtures have reported, none of them
/// a safeguard failure, the next fixture in line is waited for, or the pause where
/// all that the tick reaches have reported.
pub proof fn lemma_fixtures_in_order(view: ControlView, state: usize, reports: Seq<Event>)
    requires
        view.phase == view.updating(state, 0),
        reports.len() <= view.reach(),
        forall|k: int|
            0 <= k < reports.len() ==> (#[trigger] reports[k]) is Changed && reports[k]
                != Event::Changed(Err(InterlockError::SafeguardFailure)),
    ensures
        view.handled_all(reports).phase == view.updating(state, reports.len() as int),
        view.handled_all(reports).config == view.config,
        view.handled_all(reports).fixtures == view.fixtures,
    decreases reports.len(),
{
    if reports.len() > 0 {
        let earlier = reports.drop_last();
        lemma_fixtures_in_order(view, state, earlier);
        let before = view.handled_all(earlier);
        assert(before.reach() == view.reach());
        assert(reports.last() == reports[reports.len() - 1]);
    }
}

/// A safeguard failure of any fixture stops the loop.
pub proof fn lemma_safeguard_failure_halts(view: ControlView, state: usize, fixture: usize)
    requires
        view.phase == (Phase::Updating { state, fixture }),
    ensures
        view.handled(Event::Changed(Err(InterlockError::SafeguardFailure))).phase == Phase::Halted(
            ControlError::SafeguardFailure { fixture },
        ),
{
}

/// The control loop of one deployment: its schedule, the number of its fixtures, and
/// where it stands.
pub struct ControlLoop {
    config: Config,
    fixtures: usize,
    phase: Phase,
}

impl View for ControlLoop {
    type V = ControlView;

    closed spec fn view(&self) -> ControlView {
        ControlView { config: self.config@, fixtures: self.fixtures, phase: self.phase }
    }
}

impl ControlLoop {
    #[verifier::type_invariant]
    spec fn inv(self) -> bool {
        self@.wf()
    }

    /// A loop over `config` and `fixtures` fixtures that has yet to see the clock
    /// synchronised. A schedule that cannot be run is turned down with the reason.
    pub fn new(config: Config, fixtures: usize) -> (r: Result<ControlLoop, ParseError>)
        ensures
            (match r {
                Ok(control) => config@.wf() && control@ == (ControlView {
                    config: config@,
                    fixtures,
                    phase: Phase::Syncing,
                }),
                Err(e) => !config@.wf() && check_states(config@.states) == Err::<(), ParseError>(e),
            }),
    {
        match validate(config.states.as_slice()) {
            Ok(_) => Ok(ControlLoop { config, fixtures, phase: Phase::Syncing }),
            Err(e) => Err(e),
        }
    }

    /// The schedule that the loop runs.
    pub fn config(&self) -> (r: &Config)
        ensures
            r@ == self@.config,
    {
        &self.config
    }

    /// What is to be done next.
    pub fn action(&self) -> (r: Action)
        ensures
            self@.wf(),
            r == self@.action(),
    {
        proof {
            use_type_invariant(self);
        }
        match self.phase {
            Phase::Syncing => Action::PollSync,
            Phase::SyncPause => Action::Sleep { millis: SYNC_POLL_MILLIS },
            Phase::Reading => Action::ReadClock,
            Phase::Updating { state, fixture } => {
                assert(self.config@.states[state as int].colors.len()
                    == self.config@.states[0].colors.len());
                Action::SetColor {
                    fixture,
                    color: self.config.states[state].traffic_lights_colors[fixture],
                }
            },
            Phase::Pausing => Action::Sleep { millis: TICK_MILLIS },
            Phase::Halted(error) => Action::Halt(error),
        }
    }

    /// Takes in what came of the action.
    pub fn handle(&mut self, event: Event)
        ensures
            final(self)@ == old(self)@.handled(event),
            final(self)@.wf(),
    {
        proof {
            use_type_invariant(&*self);
            lemma_handled_wf(self@, event);
        }
        let phase = match (self.phase, event) {
            (Phase::Syncing, Event::Synced(true)) => Phase::Reading,
            (Phase::Syncing, Event::Synced(false)) => Phase::SyncPause,
            (Phase::SyncPause, Event::Woke) => Phase::Syncing,
            (Phase::Reading, Event::Time(Some(now))) => {
                let state = active_index(&self.config, now);
                self.updating(state, 0)
            },
            (Phase::Reading, Event::Time(None)) => Phase::Halted(ControlError::ClockFailure),
            (
                Phase::Updating { state, fixture },
                Event::Changed(Err(InterlockError::SafeguardFailure)),
            ) => Phase::Halted(ControlError::SafeguardFailure { fixture }),
            (Phase::Updating { state, fixture }, Event::Changed(_)) => self.updating(
                state,
                fixture + 1,
            ),
            (Phase::Pausing, Event::Woke) => Phase::Reading,
            (phase, _) => phase,
        };
        self.phase = phase;
    }

    /// The phase in which `fixture` of `state` is next, if the tick reaches it.
    fn updating(&self, state: usize, fixture: usize) -> (r: Phase)
        requires
            state < self@.config.states.len(),
        ensures
            r == self@.updating(state, fixture as int),
    {
        proof {
            use_type_invariant(self);
        }
        assert(self.config@.states[0].colors.len() == self.config.states[0].traffic_lights_colors.len());
        if fixture < self.fixtures && fixture < self.config.states[0].traffic_lights_colors.len() {
            Phase::Updating { state, fixture }
        } else {
            Phase::Pausing
        }
    }
}

} // verus!
