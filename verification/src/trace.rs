//! Whole runs of the harness: what holds of the states that a sequence of
//! events leads through.

use crate::harness::{Action, BenchError, EventModel, HarnessModel};
use crate::sampling::{
    batch_reps, elapsed_between, sample_of, warmup_continues, WARMUP_BUDGET_NANOS,
};
use crate::stats::{lemma_constant_samples, statistics_of, Statistics, BATCHES};
use vstd::arithmetic::div_mod::{lemma_fundamental_div_mod, lemma_mod_bound};
use vstd::arithmetic::mul::lemma_mul_inequality;
use vstd::prelude::*;

verus! {

/// The state that `events`, taken in order, lead to from `state`.
pub open spec fn after(state: HarnessModel, events: Seq<EventModel>) -> HarnessModel
    decreases events.len(),
{
    if events.len() == 0 {
        state
    } else {
        after(state, events.drop_last()).next(events.last())
    }
}

/// Clock readings as the events that deliver them.
pub open spec fn clock_events(readings: Seq<u128>) -> Seq<EventModel> {
    Seq::new(readings.len(), |i: int| EventModel::Clock(readings[i]))
}

/// The reference point of the batch that follows the batches ended by
/// `readings`, where the first of them was timed from `mark`: each batch moves
/// the point on by the time that the batch was measured to take.
pub open spec fn mark_after(mark: u128, readings: Seq<u128>) -> u128
    decreases readings.len(),
{
    if readings.len() == 0 {
        mark
    } else {
        let earlier = mark_after(mark, readings.drop_last());
        (earlier + elapsed_between(earlier, readings.last())) as u128
    }
}

/// The samples of the batches ended by `readings`, each of `reps` calls, where
/// the first batch was timed from `mark`.
pub open spec fn samples_of(mark: u128, reps: u32, readings: Seq<u128>) -> Seq<u128>
    decreases readings.len(),
{
    if readings.len() == 0 {
        Seq::empty()
    } else {
        let earlier = readings.drop_last();
        samples_of(mark, reps, earlier).push(
            sample_of(elapsed_between(mark_after(mark, earlier), readings.last()), reps),
        )
    }
}

/// The state is one of sampling or of what follows it.
pub open spec fn sampling_begun(state: HarnessModel) -> bool {
    state is Sampling || state is Sampled || state is Reported
}

/// Whatever the event, a state that a run can be in is followed by one of
/// the same kind.
pub proof fn lemma_next_keeps_wf(state: HarnessModel, event: EventModel)
    requires
        state.wf(),
    ensures
        state.next(event).wf(),
{
}

/// Whatever the events, a run that starts in a state that it can be in stays
/// in such states.
pub proof fn lemma_after_keeps_wf(state: HarnessModel, events: Seq<EventModel>)
    requires
        state.wf(),
    ensures
        after(state, events).wf(),
    decreases events.len(),
{
    if events.len() > 0 {
        lemma_after_keeps_wf(state, events.drop_last());
        lemma_next_keeps_wf(after(state, events.drop_last()), events.last());
    }
}

/// An awaited event brings the run nearer to its end, and an event that is
/// not awaited changes nothing.
pub proof fn lemma_next_progress(state: HarnessModel, event: EventModel)
    requires
        state.wf(),
    ensures
        state.awaits(event) ==> 0 <= state.next(event).steps_left() < state.steps_left(),
        !state.awaits(event) ==> state.next(event) == state,
{
}

/// The reference answer is the first answer that came in, and stays what it
/// is for as long as the run holds one.
pub proof fn lemma_next_reference(state: HarnessModel, event: EventModel)
    ensures
        state.next(event).reference() matches Some(reference) ==> state.reference() == Some(
            reference,
        ) || (state is InputPrepared && event == EventModel::Answer(reference)),
{
}

/// Events taken in two parts lead where they lead taken as one.
pub proof fn lemma_after_concat(
    state: HarnessModel,
    first: Seq<EventModel>,
    second: Seq<EventModel>,
)
    ensures
        after(state, first + second) == after(after(state, first), second),
    decreases second.len(),
{
    if second.len() == 0 {
        assert(first + second =~= first);
    } else {
        assert((first + second).drop_last() =~= first + second.drop_last());
        assert((first + second).last() == second.last());
        lemma_after_concat(state, first, second.drop_last());
    }
}

/// A run that was given up stays given up, for the same reason, and asks for
/// nothing but to abort.
pub proof fn lemma_failed_is_final(why: BenchError, events: Seq<EventModel>)
    ensures
        after(HarnessModel::Failed(why), events) == HarnessModel::Failed(why),
        after(HarnessModel::Failed(why), events).action() == Action::Abort(why),
    decreases events.len(),
{
    if events.len() > 0 {
        lemma_failed_is_final(why, events.drop_last());
    }
}

/// A warmup call that renders another text than the reference ends the run:
/// whatever events follow, no batch is run and nothing is reported.
pub proof fn lemma_mismatch_aborts(
    reference: Seq<char>,
    warmup_iters: u32,
    since: u128,
    text: Seq<char>,
    events: Seq<EventModel>,
)
    requires
        text != reference,
    ensures
        after(
            (HarnessModel::Calling { reference, warmup_iters, since }).next(
                EventModel::Answer(text),
            ),
            events,
        ).action() == Action::Abort(BenchError::NonDeterministic),
{
    lemma_failed_is_final(BenchError::NonDeterministic, events);
}

/// A warmup call that renders the reference again is counted, and the warmup
/// goes on to read the clock.
pub proof fn lemma_match_is_counted(
    reference: Seq<char>,
    warmup_iters: u32,
    since: u128,
)
    requires
        warmup_iters < u32::MAX,
    ensures
        (HarnessModel::Calling { reference, warmup_iters, since }).next(
            EventModel::Answer(reference),
        ) == (HarnessModel::Warming {
            reference,
            warmup_iters: (warmup_iters + 1) as u32,
            since,
        }),
{
}

/// Once sampling has begun, the run stays in sampling or in what follows it:
/// it is not given up any more.
pub proof fn lemma_sampling_never_fails(state: HarnessModel, events: Seq<EventModel>)
    requires
        sampling_begun(state),
    ensures
        sampling_begun(after(state, events)),
    decreases events.len(),
{
    if events.len() > 0 {
        lemma_sampling_never_fails(state, events.drop_last());
    }
}

/// A run that is given up at some point runs no batch and reports nothing,
/// neither before that point nor after it.
pub proof fn lemma_failure_excludes_sampling(
    state: HarnessModel,
    events: Seq<EventModel>,
    failed_at: int,
    at: int,
)
    requires
        0 <= failed_at <= events.len(),
        0 <= at <= events.len(),
        after(state, events.take(failed_at)) is Failed,
    ensures
        !(after(state, events.take(at)).action() is RunBatch),
        !(after(state, events.take(at)).action() is Report),
        !sampling_begun(after(state, events.take(at))),
{
    if at <= failed_at {
        let between = events.subrange(at, failed_at);
        assert(events.take(failed_at) =~= events.take(at) + between);
        lemma_after_concat(state, events.take(at), between);
        if sampling_begun(after(state, events.take(at))) {
            lemma_sampling_never_fails(after(state, events.take(at)), between);
        }
    } else {
        let between = events.subrange(failed_at, at);
        assert(events.take(at) =~= events.take(failed_at) + between);
        lemma_after_concat(state, events.take(failed_at), between);
        let why = after(state, events.take(failed_at))->Failed_0;
        lemma_failed_is_final(why, between);
    }
}

/// As many samples come of the readings as there are readings.
pub proof fn lemma_samples_len(mark: u128, reps: u32, readings: Seq<u128>)
    ensures
        samples_of(mark, reps, readings).len() == readings.len(),
    decreases readings.len(),
{
    if readings.len() > 0 {
        lemma_samples_len(mark, reps, readings.drop_last());
    }
}

/// The reference point never moves back, and never past the largest reading.
pub proof fn lemma_mark_after_bounds(mark: u128, readings: Seq<u128>)
    ensures
        mark <= mark_after(mark, readings),
        forall|i: int| 0 <= i < readings.len() ==> readings[i] <= mark_after(mark, readings),
    decreases readings.len(),
{
    if readings.len() > 0 {
        lemma_mark_after_bounds(mark, readings.drop_last());
        assert forall|i: int| 0 <= i < readings.len() implies readings[i] <= mark_after(
            mark,
            readings,
        ) by {
            if i < readings.len() - 1 {
                assert(readings.drop_last()[i] == readings[i]);
            }
        }
    }
}

/// From a state of sampling, the clock readings at the ends of the batches
/// lead to further sampling, with one sample more for each reading, until
/// the last batch is in; then sampling is over.
pub proof fn lemma_sampling_run(
    answer: Seq<char>,
    reps: u32,
    mark: u128,
    recorded: Seq<u128>,
    readings: Seq<u128>,
)
    requires
        reps >= 1,
        recorded.len() < BATCHES,
        recorded.len() + readings.len() <= BATCHES,
    ensures
        after(HarnessModel::Sampling { answer, reps, mark, recorded }, clock_events(readings)) == (
        if recorded.len() + readings.len() == BATCHES {
            HarnessModel::Sampled { answer, samples: recorded + samples_of(mark, reps, readings) }
        } else {
            HarnessModel::Sampling {
                answer,
                reps,
                mark: mark_after(mark, readings),
                recorded: recorded + samples_of(mark, reps, readings),
            }
        }),
    decreases readings.len(),
{
    if readings.len() == 0 {
        assert(recorded + samples_of(mark, reps, readings) =~= recorded);
    } else {
        let earlier = readings.drop_last();
        lemma_sampling_run(answer, reps, mark, recorded, earlier);
        lemma_samples_len(mark, reps, earlier);
        assert(clock_events(readings).drop_last() =~= clock_events(earlier));
        assert(clock_events(readings).last() == EventModel::Clock(readings.last()));
        let so_far = recorded + samples_of(mark, reps, earlier);
        let sample = sample_of(elapsed_between(mark_after(mark, earlier), readings.last()), reps);
        assert(so_far.push(sample) =~= recorded + samples_of(mark, reps, readings));
    }
}

/// After a warmup, one clock reading starts the sampling and a hundred more
/// end its batches. Each of these hundred batches, and no other, is asked for
/// with the same number of calls, a hundredth of the warmup's calls and at
/// least one; a warmup of fewer than a hundred calls gives batches of one
/// call. The run ends sampled, with the reference answer and one sample for
/// each batch.
pub proof fn lemma_hundred_batches(
    warmup_iters: u32,
    reference: Seq<char>,
    start: u128,
    readings: Seq<u128>,
)
    requires
        readings.len() == BATCHES,
    ensures
        forall|k: int|
            0 <= k < BATCHES ==> #[trigger] after(
                HarnessModel::Warmed { warmup_iters, reference },
                clock_events(seq![start] + readings.take(k)),
            ).action() == (Action::RunBatch { reps: batch_reps(warmup_iters) }),
        after(
            HarnessModel::Warmed { warmup_iters, reference },
            clock_events(seq![start] + readings),
        ) == (HarnessModel::Sampled {
            answer: reference,
            samples: samples_of(start, batch_reps(warmup_iters), readings),
        }),
        samples_of(start, batch_reps(warmup_iters), readings).len() == BATCHES,
        batch_reps(warmup_iters) >= 1,
        warmup_iters < 100 ==> batch_reps(warmup_iters) == 1,
{
    let warmed = HarnessModel::Warmed { warmup_iters, reference };
    let reps = batch_reps(warmup_iters);
    let none = Seq::<u128>::empty();
    let begin = HarnessModel::Sampling { answer: reference, reps, mark: start, recorded: none };
    assert(after(warmed, clock_events(seq![start])) == begin) by {
        let first = clock_events(seq![start]);
        assert(first.drop_last().len() == 0);
        assert(first.last() == EventModel::Clock(start));
        assert(after(warmed, first.drop_last()) == warmed);
    }
    assert forall|part: Seq<u128>| part.len() <= BATCHES implies #[trigger] after(
        warmed,
        clock_events(seq![start] + part),
    ) == after(begin, clock_events(part)) by {
        assert(clock_events(seq![start] + part) =~= clock_events(seq![start]) + clock_events(
            part,
        ));
        lemma_after_concat(warmed, clock_events(seq![start]), clock_events(part));
    }
    assert forall|k: int| 0 <= k < BATCHES implies #[trigger] after(
        warmed,
        clock_events(seq![start] + readings.take(k)),
    ).action() == (Action::RunBatch { reps }) by {
        lemma_sampling_run(reference, reps, start, none, readings.take(k));
    }
    lemma_sampling_run(reference, reps, start, none, readings);
    lemma_samples_len(start, reps, readings);
    assert(none + samples_of(start, reps, readings) =~= samples_of(start, reps, readings));
}

/// The clock of a run in which every call costs the same: it reads `start`
/// when sampling begins and `reps * cost` more at the end of each batch.
pub open spec fn steady_readings(start: u128, reps: u32, cost: u128, readings: Seq<u128>) -> bool {
    forall|k: int|
        0 <= k < readings.len() ==> #[trigger] readings[k] as int == start + (k + 1) * (reps
            * cost)
}

/// On a steady clock every sample is the cost of one call.
pub proof fn lemma_steady_samples(start: u128, reps: u32, cost: u128, readings: Seq<u128>)
    requires
        reps >= 1,
        steady_readings(start, reps, cost, readings),
    ensures
        mark_after(start, readings) as int == start + readings.len() * (reps * cost),
        samples_of(start, reps, readings).len() == readings.len(),
        forall|k: int|
            0 <= k < readings.len() ==> #[trigger] samples_of(start, reps, readings)[k] == cost,
    decreases readings.len(),
{
    if readings.len() > 0 {
        let earlier = readings.drop_last();
        let n = earlier.len() as int;
        let batch = reps * cost;
        assert(steady_readings(start, reps, cost, earlier)) by {
            assert forall|k: int| 0 <= k < earlier.len() implies #[trigger] earlier[k] as int
                == start + (k + 1) * (reps * cost) by {
                assert(earlier[k] == readings[k]);
            }
        }
        lemma_steady_samples(start, reps, cost, earlier);
        let mark = mark_after(start, earlier);
        assert(readings.last() == readings[n]);
        assert(readings.last() as int == start + (n + 1) * batch);
        assert((n + 1) * batch == n * batch + batch) by (nonlinear_arith);
        assert(batch >= 0) by (nonlinear_arith)
            requires
                batch == reps * cost,
        ;
        assert(elapsed_between(mark, readings.last()) as int == batch);
        assert(sample_of(elapsed_between(mark, readings.last()), reps) == cost) by {
            assert((reps * cost) / (reps as int) == cost as int) by (nonlinear_arith)
                requires
                    reps >= 1,
            ;
        }
        assert((n + 1) * batch == readings.len() * batch);
    }
}

/// On a steady clock the run ends with every sample, and so the median, the
/// average, the minimum and the maximum, equal to the cost of one call.
pub proof fn lemma_steady_clock_reports_cost(
    warmup_iters: u32,
    reference: Seq<char>,
    start: u128,
    cost: u128,
    readings: Seq<u128>,
)
    requires
        readings.len() == BATCHES,
        steady_readings(start, batch_reps(warmup_iters), cost, readings),
    ensures
        after(
            HarnessModel::Warmed { warmup_iters, reference },
            clock_events(seq![start] + readings),
        ) == (HarnessModel::Sampled {
            answer: reference,
            samples: samples_of(start, batch_reps(warmup_iters), readings),
        }),
        statistics_of(samples_of(start, batch_reps(warmup_iters), readings)) == (Statistics {
            median: cost,
            average: cost,
            min: cost,
            max: cost,
        }),
{
    let reps = batch_reps(warmup_iters);
    lemma_hundred_batches(warmup_iters, reference, start, readings);
    lemma_steady_samples(start, reps, cost, readings);
    lemma_constant_samples(samples_of(start, reps, readings), cost);
}

/// Every answer among the events is `text`.
pub open spec fn answers_are(events: Seq<EventModel>, text: Seq<char>) -> bool {
    forall|i: int|
        0 <= i < events.len() ==> (#[trigger] events[i] is Answer ==> events[i]->Answer_0 == text)
}

/// A solution that renders the same text at every call is never found
/// non-deterministic: whatever the clock reads and however long the run goes
/// on, it is not given up, and its reference answer is that text.
pub proof fn lemma_same_answers_never_fail(events: Seq<EventModel>, text: Seq<char>)
    requires
        answers_are(events, text),
    ensures
        !(after(HarnessModel::InputPrepared, events) is Failed),
        !(after(HarnessModel::InputPrepared, events) is Start),
        after(HarnessModel::InputPrepared, events).reference() matches Some(reference)
            ==> reference == text,
    decreases events.len(),
{
    if events.len() > 0 {
        let earlier = events.drop_last();
        assert(answers_are(earlier, text)) by {
            assert forall|i: int| 0 <= i < earlier.len() && #[trigger] earlier[i] is Answer implies
                earlier[i]->Answer_0 == text by {
                assert(earlier[i] == events[i]);
            }
        }
        lemma_same_answers_never_fail(earlier, text);
        assert(events.last() == events[events.len() - 1]);
    }
}

/// The calls of the solution that an action asks for.
pub open spec fn calls_asked(action: Action) -> int {
    match action {
        Action::Solve => 1,
        Action::RunBatch { reps } => reps as int,
        _ => 0,
    }
}

/// The calls of the solution made in a run from `state` in which each of
/// `events` tells what came of the action asked for before it.
pub open spec fn calls_during(state: HarnessModel, events: Seq<EventModel>) -> int
    decreases events.len(),
{
    if events.len() == 0 {
        0
    } else {
        calls_during(state, events.drop_last()) + calls_asked(
            after(state, events.drop_last()).action(),
        )
    }
}

/// The calls of a run taken in two parts add up.
pub proof fn lemma_calls_concat(
    state: HarnessModel,
    first: Seq<EventModel>,
    second: Seq<EventModel>,
)
    ensures
        calls_during(state, first + second) == calls_during(state, first) + calls_during(
            after(state, first),
            second,
        ),
    decreases second.len(),
{
    if second.len() == 0 {
        assert(first + second =~= first);
    } else {
        assert((first + second).drop_last() =~= first + second.drop_last());
        lemma_calls_concat(state, first, second.drop_last());
        lemma_after_concat(state, first, second.drop_last());
    }
}

/// From a state of sampling, each clock reading ends a batch of `reps` calls.
pub proof fn lemma_sampling_calls(
    answer: Seq<char>,
    reps: u32,
    mark: u128,
    recorded: Seq<u128>,
    readings: Seq<u128>,
)
    requires
        reps >= 1,
        recorded.len() < BATCHES,
        recorded.len() + readings.len() <= BATCHES,
    ensures
        calls_during(
            HarnessModel::Sampling { answer, reps, mark, recorded },
            clock_events(readings),
        ) == readings.len() * reps,
    decreases readings.len(),
{
    if readings.len() > 0 {
        let earlier = readings.drop_last();
        lemma_sampling_calls(answer, reps, mark, recorded, earlier);
        lemma_sampling_run(answer, reps, mark, recorded, earlier);
        assert(clock_events(readings).drop_last() =~= clock_events(earlier));
        assert(readings.len() * reps == earlier.len() * reps + reps) by (nonlinear_arith)
            requires
                readings.len() == earlier.len() + 1,
        ;
    } else {
        assert(clock_events(readings).len() == 0);
        assert(readings.len() * reps == 0) by (nonlinear_arith)
            requires
                readings.len() == 0,
        ;
    }
}

/// The hundred batches after a warmup make a hundred times the calls of one
/// batch in all; after a warmup of fewer than a hundred calls that is a
/// hundred calls, no fewer and no more.
pub proof fn lemma_hundred_batches_calls(
    warmup_iters: u32,
    reference: Seq<char>,
    start: u128,
    readings: Seq<u128>,
)
    requires
        readings.len() == BATCHES,
    ensures
        calls_during(
            HarnessModel::Warmed { warmup_iters, reference },
            clock_events(seq![start] + readings),
        ) == BATCHES * batch_reps(warmup_iters),
        warmup_iters < 100 ==> calls_during(
            HarnessModel::Warmed { warmup_iters, reference },
            clock_events(seq![start] + readings),
        ) == 100,
{
    let warmed = HarnessModel::Warmed { warmup_iters, reference };
    let reps = batch_reps(warmup_iters);
    let none = Seq::<u128>::empty();
    let begin = HarnessModel::Sampling { answer: reference, reps, mark: start, recorded: none };
    let first = clock_events(seq![start]);
    assert(first.drop_last() =~= Seq::<EventModel>::empty());
    assert(first.last() == EventModel::Clock(start));
    assert(after(warmed, first.drop_last()) == warmed);
    assert(after(warmed, first) == begin);
    assert(calls_during(warmed, first.drop_last()) == 0);
    assert(calls_during(warmed, first) == 0);
    assert(clock_events(seq![start] + readings) =~= first + clock_events(readings));
    lemma_calls_concat(warmed, first, clock_events(readings));
    lemma_sampling_calls(reference, reps, start, none, readings);
}

/// The events of a warmup in which every call renders `text`: the clock is
/// read, and after each reading but the last the solution is called.
pub open spec fn warmup_events(readings: Seq<u128>, text: Seq<char>) -> Seq<EventModel>
    decreases readings.len(),
{
    if readings.len() == 0 {
        Seq::empty()
    } else if readings.len() == 1 {
        seq![EventModel::Clock(readings[0])]
    } else {
        warmup_events(readings.drop_last(), text) + seq![
            EventModel::Answer(text),
            EventModel::Clock(readings.last()),
        ]
    }
}

/// Two events lead where the first and then the second lead.
pub proof fn lemma_after_two(state: HarnessModel, first: EventModel, second: EventModel)
    ensures
        after(state, seq![first, second]) == state.next(first).next(second),
{
    let both = seq![first, second];
    let one = seq![first];
    assert(both.drop_last() =~= one);
    assert(one.drop_last() =~= Seq::<EventModel>::empty());
    assert(after(state, one.drop_last()) == state);
    assert(one.last() == first);
    assert(after(state, one) == state.next(first));
    assert(both.last() == second);
}

/// A warmup whose calls all render the reference goes on as long as each
/// reading but the last lets it, counting one call more after each of them,
/// and ends or goes on as the last reading decides.
pub proof fn lemma_warmup_run(
    reference: Seq<char>,
    warmup_iters: u32,
    since: u128,
    readings: Seq<u128>,
)
    requires
        readings.len() >= 1,
        warmup_iters + readings.len() - 1 <= u32::MAX,
        forall|j: int|
            0 <= j < readings.len() - 1 ==> warmup_continues(
                since,
                #[trigger] readings[j],
                (warmup_iters + j) as u32,
            ),
    ensures
        after(
            HarnessModel::Warming { reference, warmup_iters, since },
            warmup_events(readings, reference),
        ) == (if warmup_continues(
            since,
            readings.last(),
            (warmup_iters + readings.len() - 1) as u32,
        ) {
            HarnessModel::Calling {
                reference,
                warmup_iters: (warmup_iters + readings.len() - 1) as u32,
                since,
            }
        } else {
            HarnessModel::Warmed {
                warmup_iters: (warmup_iters + readings.len() - 1) as u32,
                reference,
            }
        }),
    decreases readings.len(),
{
    let begin = HarnessModel::Warming { reference, warmup_iters, since };
    if readings.len() == 1 {
        let only = warmup_events(readings, reference);
        assert(only.drop_last() =~= Seq::<EventModel>::empty());
        assert(after(begin, only.drop_last()) == begin);
        assert(only.last() == EventModel::Clock(readings[0]));
    } else {
        let earlier = readings.drop_last();
        assert forall|j: int| 0 <= j < earlier.len() - 1 implies warmup_continues(
            since,
            #[trigger] earlier[j],
            (warmup_iters + j) as u32,
        ) by {
            assert(earlier[j] == readings[j]);
        }
        lemma_warmup_run(reference, warmup_iters, since, earlier);
        assert(earlier.last() == readings[readings.len() - 2]);
        let last_two = seq![EventModel::Answer(reference), EventModel::Clock(readings.last())];
        lemma_after_concat(begin, warmup_events(earlier, reference), last_two);
        lemma_after_two(
            after(begin, warmup_events(earlier, reference)),
            EventModel::Answer(reference),
            EventModel::Clock(readings.last()),
        );
    }
}

/// The calls that a warmup makes where every call costs `cost`: as many as it
/// takes to spend the budget.
pub open spec fn steady_warmup_calls(cost: u128) -> int {
    (WARMUP_BUDGET_NANOS + cost - 1) / (cost as int)
}

/// The clock of a warmup in which every call costs the same: it reads `since`
/// at first and `cost` more after each call.
pub open spec fn steady_warmup_readings(since: u128, cost: u128, readings: Seq<u128>) -> bool {
    forall|j: int| 0 <= j < readings.len() ==> #[trigger] readings[j] as int == since + j * cost
}

/// The budget is spent by as many calls as it takes, and not by fewer.
pub proof fn lemma_steady_warmup_calls(cost: u128)
    requires
        cost >= 1,
    ensures
        (steady_warmup_calls(cost) - 1) * cost < WARMUP_BUDGET_NANOS <= steady_warmup_calls(cost)
            * cost,
        steady_warmup_calls(cost) >= 1,
        cost < 1000 ==> steady_warmup_calls(cost) > 5_000_000,
        cost >= 2 ==> steady_warmup_calls(cost) <= 2_500_000_000,
{
    let x = WARMUP_BUDGET_NANOS + cost - 1;
    let d = cost as int;
    let q = steady_warmup_calls(cost);
    lemma_fundamental_div_mod(x, d);
    lemma_mod_bound(x, d);
    assert(x == d * q + x % d);
    assert(d * q == q * cost) by (nonlinear_arith)
        requires
            d == cost,
    ;
    assert((q - 1) * cost == q * cost - cost) by (nonlinear_arith);
    if q < 1 {
        assert(q * cost <= 0) by (nonlinear_arith)
            requires
                q <= 0,
                cost >= 1,
        ;
    }
    if cost < 1000 && q <= 5_000_000 {
        assert(q * cost <= 5_000_000 * 999) by (nonlinear_arith)
            requires
                q <= 5_000_000,
                1 <= cost <= 999,
                q >= 1,
        ;
    }
    if cost >= 2 && q > 2_500_000_000 {
        assert((q - 1) * cost >= 2_500_000_000 * 2) by (nonlinear_arith)
            requires
                q - 1 >= 2_500_000_000,
                cost >= 2,
        ;
    }
}

/// On a steady clock the warmup ends having counted as many calls as it
/// takes to spend the budget; the reference call, made before the warmup
/// began, is not among them. Where a call costs less than a microsecond,
/// these are more than five million, and a batch has a hundredth of them.
pub proof fn lemma_steady_warmup(
    reference: Seq<char>,
    since: u128,
    cost: u128,
    readings: Seq<u128>,
)
    requires
        cost >= 2,
        readings.len() == steady_warmup_calls(cost) + 1,
        steady_warmup_readings(since, cost, readings),
    ensures
        after(
            HarnessModel::Warming { reference, warmup_iters: 0, since },
            warmup_events(readings, reference),
        ) == (HarnessModel::Warmed {
            warmup_iters: steady_warmup_calls(cost) as u32,
            reference,
        }),
        after(
            HarnessModel::Referenced { reference },
            seq![EventModel::Clock(since)] + warmup_events(readings, reference),
        ) == (HarnessModel::Warmed {
            warmup_iters: steady_warmup_calls(cost) as u32,
            reference,
        }),
        cost < 1000 ==> steady_warmup_calls(cost) > 5_000_000,
        cost < 1000 ==> batch_reps(steady_warmup_calls(cost) as u32) as int
            == steady_warmup_calls(cost) / 100,
{
    let calls = steady_warmup_calls(cost);
    lemma_steady_warmup_calls(cost);
    assert forall|j: int| 0 <= j < readings.len() - 1 implies warmup_continues(
        since,
        #[trigger] readings[j],
        j as u32,
    ) by {
        assert(readings[j] as int == since + j * cost);
        lemma_mul_inequality(j, calls - 1, cost as int);
        assert(j * cost >= 0) by (nonlinear_arith)
            requires
                j >= 0,
                cost >= 0,
        ;
    }
    lemma_warmup_run(reference, 0, since, readings);
    assert(readings.last() == readings[calls]);
    assert(readings.last() as int == since + calls * cost);

    let referenced = HarnessModel::Referenced { reference };
    let first = seq![EventModel::Clock(since)];
    assert(first.drop_last() =~= Seq::<EventModel>::empty());
    assert(after(referenced, first.drop_last()) == referenced);
    assert(first.last() == EventModel::Clock(since));
    lemma_after_concat(referenced, first, warmup_events(readings, reference));
}

/// The readings of a clock during a warmup that began at `since`: the first
/// is at most `most` after `since`, and each further one is at least `least`
/// and at most `most` after the one before.
pub open spec fn paced_readings(since: u128, least: u128, most: u128, readings: Seq<u128>) -> bool {
    &&& readings.len() >= 1 ==> since <= readings[0] <= since + most
    &&& forall|j: int, k: int|
        0 <= j && k == j + 1 && k < readings.len() ==> (#[trigger] readings[j]) + least
            <= #[trigger] readings[k] <= readings[j] + most
}

/// A paced clock has moved on from `since` by at least `least` for each
/// reading before the one looked at, and by at most `most` for each reading
/// up to it.
pub proof fn lemma_paced_bounds(
    since: u128,
    least: u128,
    most: u128,
    readings: Seq<u128>,
    at: int,
)
    requires
        paced_readings(since, least, most, readings),
        0 <= at < readings.len(),
    ensures
        since + at * least <= readings[at] <= since + (at + 1) * most,
    decreases at,
{
    if at > 0 {
        lemma_paced_bounds(since, least, most, readings, at - 1);
        assert(readings[at - 1] + least <= readings[at] <= readings[at - 1] + most);
        assert(at * least == (at - 1) * least + least) by (nonlinear_arith);
        assert((at + 1) * most == at * most + most) by (nonlinear_arith);
    } else {
        assert(at * least == 0) by (nonlinear_arith)
            requires
                at == 0,
        ;
        assert((at + 1) * most == most) by (nonlinear_arith)
            requires
                at == 0,
        ;
    }
}

/// The warmup of a fast solution. Where the clock is read at most 999 ns
/// after the warmup began and then every 2 ns to 999 ns, and the warmup ends
/// at the first reading that finds the budget spent, it has counted more than
/// five million calls, it overruns the budget by less than a microsecond, and
/// a batch has a hundredth of the counted calls, at least fifty thousand.
pub proof fn lemma_fast_warmup(reference: Seq<char>, since: u128, readings: Seq<u128>)
    requires
        readings.len() >= 1,
        paced_readings(since, 2, 999, readings),
        forall|j: int|
            0 <= j < readings.len() - 1 ==> elapsed_between(since, #[trigger] readings[j])
                < WARMUP_BUDGET_NANOS,
        elapsed_between(since, readings.last()) >= WARMUP_BUDGET_NANOS,
    ensures
        readings.len() - 1 <= u32::MAX,
        after(
            HarnessModel::Warming { reference, warmup_iters: 0, since },
            warmup_events(readings, reference),
        ) == (HarnessModel::Warmed { warmup_iters: (readings.len() - 1) as u32, reference }),
        readings.len() - 1 > 5_000_000,
        elapsed_between(since, readings.last()) < WARMUP_BUDGET_NANOS + 999,
        batch_reps((readings.len() - 1) as u32) as int == (readings.len() - 1) / 100,
        batch_reps((readings.len() - 1) as u32) >= 50_000,
{
    let n = readings.len() as int;
    lemma_paced_bounds(since, 2, 999, readings, n - 1);
    assert(readings.last() == readings[n - 1]);
    assert(n >= 2) by {
        if n == 1 {
            assert((n - 1 + 1) * 999 == 999) by (nonlinear_arith)
                requires
                    n == 1,
            ;
        }
    }
    lemma_paced_bounds(since, 2, 999, readings, n - 2);
    assert(readings[n - 2] + 2 <= readings[n - 1] <= readings[n - 2] + 999);
    assert(n - 2 < 2_500_000_000) by {
        assert((n - 2) * 2 < WARMUP_BUDGET_NANOS);
    }
    assert(n > 5_000_001) by {
        assert(n * 999 >= WARMUP_BUDGET_NANOS);
    }
    assert forall|j: int| 0 <= j < readings.len() - 1 implies warmup_continues(
        since,
        #[trigger] readings[j],
        j as u32,
    ) by {
    }
    lemma_warmup_run(reference, 0, since, readings);
}

} // verus!
