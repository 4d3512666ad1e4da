//! Runs the harness on a solution and a clock.
//!
//! The solution and the clock are functions handed in by the caller. The
//! driver performs what the harness asks for and feeds back what came of it,
//! until the harness is through with its samples or gives the run up. Inside
//! a batch nothing happens but the calls of the solution, each shielded from
//! the optimizer on its argument and on its result.

use crate::harness::{Action, BenchError, Event, EventModel, Harness, HarnessModel};
use crate::trace::{after, lemma_next_progress, lemma_next_reference};
use vstd::pervasive::unreached;
use vstd::prelude::*;
use vstd::string::to_string_from_display_ensures;

verus! {

/// `std::hint::black_box` hands back the value it is given; it exists to keep
/// the optimizer from reasoning about that value.
pub assume_specification<T>[ std::hint::black_box::<T> ](dummy: T) -> (out: T)
    ensures
        out == dummy,
;

/// `text` is what some answer of `solve` to `input` renders to.
pub open spec fn rendered_by<T, R: core::fmt::Display, S: Fn(T) -> R>(
    solve: &S,
    input: T,
    text: Seq<char>,
) -> bool {
    exists|answer: R, rendering: String|
        call_ensures(solve, (input,), answer) && #[trigger] to_string_from_display_ensures::<R>(
            &answer,
            rendering,
        ) && rendering@ == text
}

/// The events are those of a run on `solve` and `input` from the prepared
/// input on: each is of the kind that the harness awaited when it came, and
/// each answer is what some answer of `solve` to `input` renders to.
pub open spec fn observed<T, R: core::fmt::Display, S: Fn(T) -> R>(
    solve: &S,
    input: T,
    events: Seq<EventModel>,
) -> bool {
    forall|i: int|
        0 <= i < events.len() ==> {
            &&& after(HarnessModel::InputPrepared, events.take(i)).awaits(#[trigger] events[i])
            &&& events[i] is Answer ==> rendered_by(solve, input, events[i]->Answer_0)
        }
}

/// Each clock reading among the events is a reading that `clock` gave.
pub open spec fn timed_by<C: Fn() -> u128>(clock: &C, events: Seq<EventModel>) -> bool {
    forall|i: int|
        0 <= i < events.len() ==> (#[trigger] events[i] is Clock ==> call_ensures(
            clock,
            (),
            events[i]->Clock_0,
        ))
}

/// The result of a run is what the state `end` holds: the answer and the
/// samples of a state that is through with sampling, or the reason of one
/// that was given up.
pub open spec fn ends_as(result: Result<(String, [u128; 100]), BenchError>, end: HarnessModel) -> bool {
    match result {
        Ok(done) => end == (HarnessModel::Sampled { answer: done.0@, samples: done.1@ }),
        Err(why) => end == HarnessModel::Failed(why),
    }
}

/// Calls the solution `reps` times back to back and drops what it returns.
pub fn run_batch<T: Copy, R, S: Fn(T) -> R>(input: T, solve: &S, reps: u32)
    requires
        call_requires(solve, (input,)),
{
    let mut done: u32 = 0;
    while done < reps
        invariant
            done <= reps,
            call_requires(solve, (input,)),
        decreases reps - done,
    {
        let _dropped = std::hint::black_box(solve(std::hint::black_box(input)));
        done += 1;
    }
}

/// Warms up and samples `solve` on `input`, reading the time from `clock`,
/// which gives nanoseconds and is expected never to run backwards.
///
/// The run is one of the harness from the prepared input on, fed with
/// renderings of what `solve` answered and with readings of `clock`, each
/// when the harness awaited it. It ends
/// with the reference answer and the hundred samples, or, where a warmup call
/// rendered another text than the first call did, as non-deterministic.
pub fn benchmark<T, R, S, C>(input: T, solve: &S, clock: &C) -> (result: Result<
    (String, [u128; 100]),
    BenchError,
>) where T: Copy, R: core::fmt::Display, S: Fn(T) -> R, C: Fn() -> u128
    requires
        call_requires(solve, (input,)),
        call_requires(clock, ()),
    ensures
        exists|events: Seq<EventModel>|
            observed(solve, input, events) && timed_by(clock, events) && ends_as(
                result,
                #[trigger] after(HarnessModel::InputPrepared, events),
            ),
        result matches Ok(done) ==> rendered_by(solve, input, done.0@),
        result matches Err(why) ==> why == BenchError::NonDeterministic,
{
    let mut state: Harness = Harness::InputPrepared;
    let ghost mut events: Seq<EventModel> = Seq::empty();
    loop
        invariant
            call_requires(solve, (input,)),
            call_requires(clock, ()),
            state.wf(),
            observed(solve, input, events),
            timed_by(clock, events),
            state@ == after(HarnessModel::InputPrepared, events),
            !(state@ is Start) && !(state@ is Reported),
            state@ is Failed ==> state@ == HarnessModel::Failed(BenchError::NonDeterministic),
            state@.reference() matches Some(text) ==> rendered_by(solve, input, text),
        decreases state@.steps_left(),
    {
        let ghost before = state@;
        let ghost earlier = events;
        let event: Event = match state.action() {
            Action::Solve => {
                let answer: R = if matches!(state, Harness::InputPrepared) {
                    solve(input)
                } else {
                    std::hint::black_box(solve(std::hint::black_box(input)))
                };
                let rendering: String = answer.to_string();
                proof {
                    assert(rendered_by(solve, input, rendering@));
                }
                Event::Answer(rendering)
            },
            Action::ReadClock => Event::Clock(clock()),
            Action::RunBatch { reps } => {
                run_batch(input, solve, reps);
                Event::Clock(clock())
            },
            Action::Report => {
                return match state {
                    Harness::Sampled { answer, samples } => Ok((answer, samples)),
                    _ => unreached(),
                };
            },
            Action::Abort(why) => {
                return Err(why);
            },
            Action::PrepareInput => unreached(),
            Action::Exit => unreached(),
        };
        proof {
            events = earlier.push(event@);
            assert(events.drop_last() =~= earlier);
            lemma_next_progress(before, event@);
            lemma_next_reference(before, event@);
            assert forall|i: int| 0 <= i < events.len() implies {
                &&& after(HarnessModel::InputPrepared, events.take(i)).awaits(#[trigger] events[i])
                &&& events[i] is Answer ==> rendered_by(solve, input, events[i]->Answer_0)
            } by {
                if i < earlier.len() {
                    assert(events.take(i) =~= earlier.take(i));
                    assert(events[i] == earlier[i]);
                } else {
                    assert(events.take(i) =~= earlier);
                }
            }
            assert forall|i: int| 0 <= i < events.len() && #[trigger] events[i] is Clock implies
                call_ensures(clock, (), events[i]->Clock_0) by {
                if i < earlier.len() {
                    assert(events[i] == earlier[i]);
                }
            }
        }
        state = state.step(event);
    }
}

} // verus!
