//! The harness as a state machine.
//!
//! The harness itself neither calls the solution nor reads a clock. It says
//! what is to be done next (an [`Action`]), is told what came of it (an
//! [`Event`]), and decides from that how the run goes on. Whoever drives it
//! performs the actions:
//!
//! * [`Action::Solve`]: call the solution once and render its answer; the
//!   text comes back as [`Event::Answer`].
//! * [`Action::ReadClock`]: read the monotonic clock; the reading comes back
//!   as [`Event::Clock`].
//! * [`Action::RunBatch`]: call the solution `reps` times back to back, then
//!   read the clock; the reading comes back as [`Event::Clock`].
//!
//! An event that the current state does not await leaves the state as it is.

use crate::sampling::{
    batch_iters, batch_reps, elapsed_between, elapsed_since, keep_warming, per_call, sample_of,
    warmup_continues,
};
use crate::stats::BATCHES;
use vstd::prelude::*;

verus! {

/// Why no input could be prepared.
#[derive(Clone, Copy, Debug, PartialEq, Eq, Structural)]
pub enum InputError {
    /// No input was supplied.
    Missing,
    /// The input was to be text and is not valid UTF-8.
    InvalidEncoding,
    /// No aligned buffer could be laid out or allocated for the input.
    Allocation,
}

/// Why a run ended without a report.
#[derive(Clone, Copy, Debug, PartialEq, Eq, Structural)]
pub enum BenchError {
    /// The input could not be prepared.
    Input(InputError),
    /// The solution rendered two different answers for the same input.
    NonDeterministic,
}

/// The message of an error, as a mathematical value.
pub open spec fn message_of(why: BenchError) -> Seq<char> {
    match why {
        BenchError::Input(InputError::Missing) => "No input file provided"@,
        BenchError::Input(InputError::InvalidEncoding) => "Input is not valid UTF-8"@,
        BenchError::Input(InputError::Allocation) => "can't align layout"@,
        BenchError::NonDeterministic => "Solution returned two different answers on same input!"@,
    }
}

impl BenchError {
    /// The message with which a run that ends in this error is given up.
    pub fn message(&self) -> (text: &'static str)
        ensures
            text@ == message_of(*self),
    {
        match self {
            BenchError::Input(InputError::Missing) => "No input file provided",
            BenchError::Input(InputError::InvalidEncoding) => "Input is not valid UTF-8",
            BenchError::Input(InputError::Allocation) => "can't align layout",
            BenchError::NonDeterministic => "Solution returned two different answers on same input!",
        }
    }
}

/// What the harness asks its driver to do next.
#[derive(Clone, Copy, Debug, PartialEq, Eq, Structural)]
pub enum Action {
    /// Prepare the input.
    PrepareInput,
    /// Call the solution once and render its answer.
    Solve,
    /// Read the clock.
    ReadClock,
    /// Call the solution `reps` times back to back, then read the clock.
    RunBatch { reps: u32 },
    /// Report the answer and the statistics of the samples.
    Report,
    /// Nothing is left to do.
    Exit,
    /// Give up for the given reason, reporting nothing.
    Abort(BenchError),
}

/// What the driver tells the harness.
#[derive(Debug, PartialEq, Eq)]
pub enum Event {
    /// The input is prepared.
    InputReady,
    /// The input could not be prepared.
    InputRejected(InputError),
    /// The solution was called once; this is its rendered answer.
    Answer(String),
    /// The clock was read; this is the reading, in nanoseconds.
    Clock(u128),
    /// The report was emitted.
    Reported,
}

/// An [`Event`] as a mathematical value.
pub enum EventModel {
    InputReady,
    InputRejected(InputError),
    Answer(Seq<char>),
    Clock(u128),
    Reported,
}

impl View for Event {
    type V = EventModel;

    open spec fn view(&self) -> EventModel {
        match *self {
            Event::InputReady => EventModel::InputReady,
            Event::InputRejected(why) => EventModel::InputRejected(why),
            Event::Answer(text) => EventModel::Answer(text@),
            Event::Clock(now) => EventModel::Clock(now),
            Event::Reported => EventModel::Reported,
        }
    }
}

/// The state of a run.
#[derive(Debug, PartialEq, Eq)]
pub enum Harness {
    /// Nothing has happened yet.
    Start,
    /// The input is prepared; the reference answer is awaited.
    InputPrepared,
    /// The reference answer is known; the clock reading that starts the
    /// warmup is awaited.
    Referenced { reference: String },
    /// The warmup began at the reading `since` and has completed
    /// `warmup_iters` calls since, the reference call not among them; the
    /// clock reading that decides on another call is awaited.
    Warming { reference: String, warmup_iters: u32, since: u128 },
    /// A warmup call is under way; its answer is awaited.
    Calling { reference: String, warmup_iters: u32, since: u128 },
    /// The warmup is over after `warmup_iters` calls; the clock reading that
    /// starts the sampling is awaited.
    Warmed { warmup_iters: u32, reference: String },
    /// `recorded` batches are sampled and another is under way, timed from
    /// `mark`; the clock reading at its end is awaited.
    Sampling { answer: String, reps: u32, mark: u128, samples: [u128; 100], recorded: usize },
    /// All batches are sampled; the report is awaited.
    Sampled { answer: String, samples: [u128; 100] },
    /// The report is out.
    Reported,
    /// The run was given up.
    Failed(BenchError),
}

/// A [`Harness`] as a mathematical value.
pub enum HarnessModel {
    Start,
    InputPrepared,
    Referenced { reference: Seq<char> },
    Warming { reference: Seq<char>, warmup_iters: u32, since: u128 },
    Calling { reference: Seq<char>, warmup_iters: u32, since: u128 },
    Warmed { warmup_iters: u32, reference: Seq<char> },
    Sampling { answer: Seq<char>, reps: u32, mark: u128, recorded: Seq<u128> },
    Sampled { answer: Seq<char>, samples: Seq<u128> },
    Reported,
    Failed(BenchError),
}

impl View for Harness {
    type V = HarnessModel;

    open spec fn view(&self) -> HarnessModel {
        match *self {
            Harness::Start => HarnessModel::Start,
            Harness::InputPrepared => HarnessModel::InputPrepared,
            Harness::Referenced { reference } => HarnessModel::Referenced { reference: reference@ },
            Harness::Warming { reference, warmup_iters, since } => HarnessModel::Warming {
                reference: reference@,
                warmup_iters,
                since,
            },
            Harness::Calling { reference, warmup_iters, since } => HarnessModel::Calling {
                reference: reference@,
                warmup_iters,
                since,
            },
            Harness::Warmed { warmup_iters, reference } => HarnessModel::Warmed {
                warmup_iters,
                reference: reference@,
            },
            Harness::Sampling { answer, reps, mark, samples, recorded } => HarnessModel::Sampling {
                answer: answer@,
                reps,
                mark,
                recorded: samples@.take(recorded as int),
            },
            Harness::Sampled { answer, samples } => HarnessModel::Sampled {
                answer: answer@,
                samples: samples@,
            },
            Harness::Reported => HarnessModel::Reported,
            Harness::Failed(why) => HarnessModel::Failed(why),
        }
    }
}

impl HarnessModel {
    /// The state is one that a run can be in: a warmup call under way can
    /// still be counted; a batch has at least one call, and sampling goes on
    /// only while batches are missing.
    pub open spec fn wf(self) -> bool {
        match self {
            HarnessModel::Calling { warmup_iters, .. } => warmup_iters < u32::MAX,
            HarnessModel::Sampling { reps, recorded, .. } => reps >= 1 && recorded.len() < BATCHES,
            HarnessModel::Sampled { samples, .. } => samples.len() == BATCHES,
            _ => true,
        }
    }

    /// What is to be done in this state.
    pub open spec fn action(self) -> Action {
        match self {
            HarnessModel::Start => Action::PrepareInput,
            HarnessModel::InputPrepared => Action::Solve,
            HarnessModel::Referenced { .. } => Action::ReadClock,
            HarnessModel::Warming { .. } => Action::ReadClock,
            HarnessModel::Calling { .. } => Action::Solve,
            HarnessModel::Warmed { .. } => Action::ReadClock,
            HarnessModel::Sampling { reps, .. } => Action::RunBatch { reps },
            HarnessModel::Sampled { .. } => Action::Report,
            HarnessModel::Reported => Action::Exit,
            HarnessModel::Failed(why) => Action::Abort(why),
        }
    }

    /// The reference answer, in the states that hold one.
    pub open spec fn reference(self) -> Option<Seq<char>> {
        match self {
            HarnessModel::Referenced { reference } => Some(reference),
            HarnessModel::Warming { reference, .. } => Some(reference),
            HarnessModel::Calling { reference, .. } => Some(reference),
            HarnessModel::Warmed { reference, .. } => Some(reference),
            HarnessModel::Sampling { answer, .. } => Some(answer),
            HarnessModel::Sampled { answer, .. } => Some(answer),
            _ => None,
        }
    }

    /// An upper bound on the number of awaited events that can still follow.
    pub open spec fn steps_left(self) -> int {
        match self {
            HarnessModel::Start => 2 * u32::MAX + 210,
            HarnessModel::InputPrepared => 2 * u32::MAX + 209,
            HarnessModel::Referenced { .. } => 2 * u32::MAX + 208,
            HarnessModel::Warming { warmup_iters, .. } => 2 * (u32::MAX - warmup_iters) + 205,
            HarnessModel::Calling { warmup_iters, .. } => 2 * (u32::MAX - warmup_iters) + 204,
            HarnessModel::Warmed { .. } => 203,
            HarnessModel::Sampling { recorded, .. } => 102 + (BATCHES - recorded.len()),
            HarnessModel::Sampled { .. } => 1,
            HarnessModel::Reported => 0,
            HarnessModel::Failed(_) => 0,
        }
    }

    /// The event is of the kind that this state awaits.
    pub open spec fn awaits(self, event: EventModel) -> bool {
        match self.action() {
            Action::PrepareInput => event is InputReady || event is InputRejected,
            Action::Solve => event is Answer,
            Action::ReadClock => event is Clock,
            Action::RunBatch { .. } => event is Clock,
            Action::Report => event is Reported,
            Action::Exit => false,
            Action::Abort(_) => false,
        }
    }

    /// The state that follows this one on `event`.
    pub open spec fn next(self, event: EventModel) -> HarnessModel {
        match (self, event) {
            (HarnessModel::Start, EventModel::InputReady) => HarnessModel::InputPrepared,
            (HarnessModel::Start, EventModel::InputRejected(why)) => HarnessModel::Failed(
                BenchError::Input(why),
            ),
            (HarnessModel::InputPrepared, EventModel::Answer(text)) => HarnessModel::Referenced {
                reference: text,
            },
            (HarnessModel::Referenced { reference }, EventModel::Clock(now)) => {
                HarnessModel::Warming { reference, warmup_iters: 0, since: now }
            },
            (HarnessModel::Warming { reference, warmup_iters, since }, EventModel::Clock(now)) => {
                if warmup_continues(since, now, warmup_iters) {
                    HarnessModel::Calling { reference, warmup_iters, since }
                } else {
                    HarnessModel::Warmed { warmup_iters, reference }
                }
            },
            (HarnessModel::Calling { reference, warmup_iters, since }, EventModel::Answer(text)) => {
                if text == reference {
                    HarnessModel::Warming {
                        reference,
                        warmup_iters: (warmup_iters + 1) as u32,
                        since,
                    }
                } else {
                    HarnessModel::Failed(BenchError::NonDeterministic)
                }
            },
            (HarnessModel::Warmed { warmup_iters, reference }, EventModel::Clock(now)) => {
                HarnessModel::Sampling {
                    answer: reference,
                    reps: batch_reps(warmup_iters),
                    mark: now,
                    recorded: Seq::empty(),
                }
            },
            (HarnessModel::Sampling { answer, reps, mark, recorded }, EventModel::Clock(now)) => {
                let elapsed = elapsed_between(mark, now);
                let samples = recorded.push(sample_of(elapsed, reps));
                if samples.len() == BATCHES {
                    HarnessModel::Sampled { answer, samples }
                } else {
                    HarnessModel::Sampling {
                        answer,
                        reps,
                        mark: (mark + elapsed) as u128,
                        recorded: samples,
                    }
                }
            },
            (HarnessModel::Sampled { .. }, EventModel::Reported) => HarnessModel::Reported,
            _ => self,
        }
    }
}

impl Harness {
    /// The state is one that a run can be in.
    pub open spec fn wf(&self) -> bool {
        &&& self@.wf()
        &&& match *self {
            Harness::Sampling { recorded, .. } => recorded < BATCHES,
            _ => true,
        }
    }

    /// A run at its beginning.
    pub fn new() -> (harness: Harness)
        ensures
            harness@ == HarnessModel::Start,
            harness.wf(),
    {
        Harness::Start
    }

    /// What is to be done next.
    pub fn action(&self) -> (action: Action)
        ensures
            action == self@.action(),
    {
        match self {
            Harness::Start => Action::PrepareInput,
            Harness::InputPrepared => Action::Solve,
            Harness::Referenced { .. } => Action::ReadClock,
            Harness::Warming { .. } => Action::ReadClock,
            Harness::Calling { .. } => Action::Solve,
            Harness::Warmed { .. } => Action::ReadClock,
            Harness::Sampling { reps, .. } => Action::RunBatch { reps: *reps },
            Harness::Sampled { .. } => Action::Report,
            Harness::Reported => Action::Exit,
            Harness::Failed(why) => Action::Abort(*why),
        }
    }

    /// Takes in what came of the last action and moves to the state that
    /// follows.
    pub fn step(self, event: Event) -> (after: Harness)
        requires
            self.wf(),
        ensures
            after@ == self@.next(event@),
            after.wf(),
    {
        match (self, event) {
            (Harness::Start, Event::InputReady) => Harness::InputPrepared,
            (Harness::Start, Event::InputRejected(why)) => Harness::Failed(BenchError::Input(why)),
            (Harness::InputPrepared, Event::Answer(text)) => Harness::Referenced { reference: text },
            (Harness::Referenced { reference }, Event::Clock(now)) => Harness::Warming {
                reference,
                warmup_iters: 0,
                since: now,
            },
            (Harness::Warming { reference, warmup_iters, since }, Event::Clock(now)) => {
                if keep_warming(since, now, warmup_iters) {
                    Harness::Calling { reference, warmup_iters, since }
                } else {
                    Harness::Warmed { warmup_iters, reference }
                }
            },
            (Harness::Calling { reference, warmup_iters, since }, Event::Answer(text)) => {
                if text == reference {
                    Harness::Warming { reference, warmup_iters: warmup_iters + 1, since }
                } else {
                    Harness::Failed(BenchError::NonDeterministic)
                }
            },
            (Harness::Warmed { warmup_iters, reference }, Event::Clock(now)) => {
                let samples: [u128; 100] = [0u128; 100];
                proof {
                    assert(samples@.take(0) =~= Seq::<u128>::empty());
                }
                Harness::Sampling {
                    answer: reference,
                    reps: batch_iters(warmup_iters),
                    mark: now,
                    samples,
                    recorded: 0,
                }
            },
            (Harness::Sampling { answer, reps, mark, samples, recorded }, Event::Clock(now)) => {
                let elapsed: u128 = elapsed_since(mark, now);
                let mut samples: [u128; 100] = samples;
                let ghost before = samples@;
                samples[recorded] = per_call(elapsed, reps);
                proof {
                    assert(samples@.take(recorded + 1) =~= before.take(recorded as int).push(
                        sample_of(elapsed, reps),
                    ));
                }
                if recorded + 1 == BATCHES {
                    proof {
                        assert(samples@.take(100) =~= samples@);
                    }
                    Harness::Sampled { answer, samples }
                } else {
                    Harness::Sampling {
                        answer,
                        reps,
                        mark: mark + elapsed,
                        samples,
                        recorded: recorded + 1,
                    }
                }
            },
            (Harness::Sampled { .. }, Event::Reported) => Harness::Reported,
            (unmoved, _) => unmoved,
        }
    }
}

} // verus!
