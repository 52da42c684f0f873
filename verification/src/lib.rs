//! Simulation of bounded asynchronous stream combinators.
//!
//! A pipeline is a source of numbered units, a chain of stages (filter,
//! ordered bounded map, unordered bounded map) and a sink. The engine
//! decides, step by step, what the pipeline does next and reports every
//! change as a [`events::StreamUpdate`]. It never sleeps and never sends: the
//! caller owns the clock and the channel.
//!
//! The modules, from the values to the theorems:
//!
//! * [`events`], [`jitter`], [`blocks`]: the events, the random durations
//!   and the stage descriptors;
//! * [`model`]: the pipeline as a mathematical state machine;
//! * [`engine`], [`builder`]: the executable pipeline and its construction;
//! * [`trace`], [`coherence`]: what a sequence of events says, and how it
//!   fits the state that emitted it;
//! * [`steps`], [`preservation`], [`bounds`], [`progress`]: the proofs that
//!   every step keeps what holds;
//! * [`laws`]: what holds of every run.

pub mod events;
pub mod jitter;
pub mod blocks;
pub mod model;
pub mod engine;
pub mod builder;
pub mod trace;
pub mod coherence;
pub mod steps;
pub mod preservation;
pub mod bounds;
pub mod progress;
pub mod laws;
