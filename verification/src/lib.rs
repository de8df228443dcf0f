//! Clock-driven control of traffic-light fixtures.
//!
//! A schedule is an ordered cycle of timed states; each state names one colour per
//! fixture. The crate parses the textual form of a schedule, selects the state that is
//! active at a given second, and decides, command by command, how a fixture is switched
//! to a colour without ever showing red and green together.
//!
//! The crate performs no input or output: reading the clock, driving the outputs and
//! pausing are left to the caller, which reports what happened back to the state
//! machines defined here.
//!
//! - [`tl`]: colours, timed states, and a fixture as the levels of its three outputs
//! - [`text`]: characters, lines and decimal numbers
//! - [`config_parser`]: the schedule and its textual form
//! - [`config_writer`]: a schedule written out, and the proof that it reads back
//! - [`utils`]: total and cumulative durations
//! - [`clock`]: the state that is active at a given second
//! - [`interlock`]: the switching of one fixture, one command at a time
//! - [`control`]: the control loop, one action at a time
//! - [`wifi`]: network credentials within their capacities

pub mod clock;
pub mod config_parser;
pub mod config_writer;
pub mod control;
pub mod interlock;
pub mod text;
pub mod tl;
pub mod utils;
pub mod wifi;
