use ferris_bench::harness::{Action, BenchError, Event, Harness, InputError};

fn text(s: &str) -> String {
    s.to_string()
}

fn warming() -> Harness {
    Harness::Warming { reference: text("14"), warmup_iters: 3, since: 1000 }
}

fn calling() -> Harness {
    Harness::Calling { reference: text("14"), warmup_iters: 3, since: 1000 }
}

fn sampled() -> Harness {
    Harness::Sampled { answer: text("14"), samples: [5; 100] }
}

fn warmed(warmup_iters: u32) -> Harness {
    Harness::Warmed { warmup_iters, reference: text("14") }
}

#[test]
fn a_run_begins_by_preparing_the_input() {
    let harness = Harness::new();
    assert_eq!(harness, Harness::Start);
    assert_eq!(harness.action(), Action::PrepareInput);
}

#[test]
fn prepared_input_leads_to_the_reference_call() {
    let harness = Harness::new().step(Event::InputReady);
    assert_eq!(harness, Harness::InputPrepared);
    assert_eq!(harness.action(), Action::Solve);
}

#[test]
fn rejected_input_ends_the_run() {
    for why in [InputError::Missing, InputError::InvalidEncoding, InputError::Allocation] {
        let harness = Harness::new().step(Event::InputRejected(why));
        assert_eq!(harness, Harness::Failed(BenchError::Input(why)));
        assert_eq!(harness.action(), Action::Abort(BenchError::Input(why)));
    }
}

#[test]
fn the_first_answer_is_the_reference() {
    let harness = Harness::InputPrepared.step(Event::Answer(text("14")));
    assert_eq!(harness, Harness::Referenced { reference: text("14") });
    assert_eq!(harness.action(), Action::ReadClock);
}

#[test]
fn the_warmup_starts_at_the_first_reading_with_no_call_counted() {
    let harness = Harness::Referenced { reference: text("14") }.step(Event::Clock(1000));
    assert_eq!(harness, Harness::Warming { reference: text("14"), warmup_iters: 0, since: 1000 });
    assert_eq!(harness.action(), Action::ReadClock);
}

/// Runs a warmup of `calls` calls, a millisecond each, and starts the sampling.
fn sampling_after(calls: u32) -> Harness {
    let mut harness = Harness::new()
        .step(Event::InputReady)
        .step(Event::Answer(text("14")))
        .step(Event::Clock(0));
    for done in 0..calls {
        harness = harness.step(Event::Clock(done as u128 * 1_000_000));
        assert_eq!(harness.action(), Action::Solve);
        harness = harness.step(Event::Answer(text("14")));
    }
    harness = harness.step(Event::Clock(5_000_000_000));
    assert_eq!(harness, Harness::Warmed { warmup_iters: calls, reference: text("14") });
    harness.step(Event::Clock(5_000_000_001))
}

#[test]
fn the_reference_call_is_not_counted_as_a_warmup_call() {
    assert_eq!(sampling_after(0).action(), Action::RunBatch { reps: 1 });
    assert_eq!(sampling_after(99).action(), Action::RunBatch { reps: 1 });
    assert_eq!(sampling_after(100).action(), Action::RunBatch { reps: 1 });
    assert_eq!(sampling_after(199).action(), Action::RunBatch { reps: 1 });
    assert_eq!(sampling_after(200).action(), Action::RunBatch { reps: 2 });
    assert_eq!(sampling_after(299).action(), Action::RunBatch { reps: 2 });
    assert_eq!(sampling_after(4999).action(), Action::RunBatch { reps: 49 });
}

#[test]
fn a_warmup_without_a_call_is_followed_by_batches_of_one_call() {
    let warming = Harness::Warming { reference: text("14"), warmup_iters: 0, since: 0 };
    let harness = warming.step(Event::Clock(5_000_000_000));
    assert_eq!(harness, Harness::Warmed { warmup_iters: 0, reference: text("14") });
    assert_eq!(harness.step(Event::Clock(7)).action(), Action::RunBatch { reps: 1 });
}

#[test]
fn the_warmup_calls_again_within_the_budget() {
    let warming = Harness::Warming { reference: text("14"), warmup_iters: 3, since: 1000 };
    let harness = warming.step(Event::Clock(1000 + 4_999_999_999));
    assert_eq!(harness, Harness::Calling { reference: text("14"), warmup_iters: 3, since: 1000 });
    assert_eq!(harness.action(), Action::Solve);
}

#[test]
fn the_warmup_ends_when_the_budget_is_spent() {
    let warming = Harness::Warming { reference: text("14"), warmup_iters: 3, since: 1000 };
    let harness = warming.step(Event::Clock(1000 + 5_000_000_000));
    assert_eq!(harness, Harness::Warmed { warmup_iters: 3, reference: text("14") });
    assert_eq!(harness.action(), Action::ReadClock);
}

#[test]
fn the_warmup_ends_when_no_further_call_can_be_counted() {
    let warming = Harness::Warming { reference: text("14"), warmup_iters: u32::MAX, since: 0 };
    let harness = warming.step(Event::Clock(1));
    assert_eq!(harness, Harness::Warmed { warmup_iters: u32::MAX, reference: text("14") });
}

#[test]
fn the_same_answer_is_counted() {
    let calling = Harness::Calling { reference: text("14"), warmup_iters: 3, since: 1000 };
    let harness = calling.step(Event::Answer(text("14")));
    assert_eq!(harness, Harness::Warming { reference: text("14"), warmup_iters: 4, since: 1000 });
}

#[test]
fn another_answer_ends_the_run_as_non_deterministic() {
    let calling = Harness::Calling { reference: text("14"), warmup_iters: 3, since: 1000 };
    let harness = calling.step(Event::Answer(text("15")));
    assert_eq!(harness, Harness::Failed(BenchError::NonDeterministic));
    assert_eq!(harness.action(), Action::Abort(BenchError::NonDeterministic));
}

#[test]
fn a_run_given_up_stays_given_up() {
    let mut harness = Harness::Failed(BenchError::NonDeterministic);
    let events = [
        Event::InputReady,
        Event::Answer(text("14")),
        Event::Clock(5),
        Event::Reported,
        Event::InputRejected(InputError::Missing),
    ];
    for event in events {
        harness = harness.step(event);
        assert_eq!(harness, Harness::Failed(BenchError::NonDeterministic));
        assert_eq!(harness.action(), Action::Abort(BenchError::NonDeterministic));
    }
}

#[test]
fn sampling_starts_with_batches_of_a_hundredth_of_the_warmup() {
    let harness = warmed(5001).step(Event::Clock(77));
    assert_eq!(harness.action(), Action::RunBatch { reps: 50 });
    match harness {
        Harness::Sampling { answer, reps, mark, recorded, .. } => {
            assert_eq!(answer, "14");
            assert_eq!(reps, 50);
            assert_eq!(mark, 77);
            assert_eq!(recorded, 0);
        },
        other => panic!("sampling was expected, not {:?}", other),
    }
}

#[test]
fn a_short_warmup_gives_a_hundred_batches_of_one_call() {
    let mut harness = warmed(6).step(Event::Clock(0));
    let mut batches = 0;
    let mut calls: u64 = 0;
    let mut now: u128 = 0;
    while let Action::RunBatch { reps } = harness.action() {
        assert_eq!(reps, 1);
        batches += 1;
        calls += reps as u64;
        now += 1_000_000_000;
        harness = harness.step(Event::Clock(now));
    }
    assert_eq!(batches, 100);
    assert_eq!(calls, 100);
    assert_eq!(harness.action(), Action::Report);
    assert_eq!(harness, Harness::Sampled { answer: text("14"), samples: [1_000_000_000; 100] });
}

#[test]
fn a_sample_is_the_time_of_its_batch_per_call() {
    let mut harness = warmed(300).step(Event::Clock(1000));
    assert_eq!(harness.action(), Action::RunBatch { reps: 3 });
    // The batches end at 1030, 1100 and 1101.
    harness = harness.step(Event::Clock(1030));
    harness = harness.step(Event::Clock(1100));
    harness = harness.step(Event::Clock(1101));
    match harness {
        Harness::Sampling { mark, samples, recorded, .. } => {
            assert_eq!(recorded, 3);
            assert_eq!(mark, 1101);
            assert_eq!(&samples[..3], &[10, 23, 0]);
        },
        other => panic!("sampling was expected, not {:?}", other),
    }
}

#[test]
fn the_mark_moves_by_the_measured_time_only() {
    let mut harness = warmed(100).step(Event::Clock(500));
    // A reading before the mark: no time has passed, the mark stays.
    harness = harness.step(Event::Clock(400));
    match &harness {
        Harness::Sampling { mark, samples, recorded, .. } => {
            assert_eq!(*recorded, 1);
            assert_eq!(*mark, 500);
            assert_eq!(samples[0], 0);
        },
        other => panic!("sampling was expected, not {:?}", other),
    }
    harness = harness.step(Event::Clock(520));
    match &harness {
        Harness::Sampling { mark, samples, recorded, .. } => {
            assert_eq!(*recorded, 2);
            assert_eq!(*mark, 520);
            assert_eq!(samples[1], 20);
        },
        other => panic!("sampling was expected, not {:?}", other),
    }
}

#[test]
fn the_report_ends_the_run() {
    let sampled = Harness::Sampled { answer: text("14"), samples: [5; 100] };
    assert_eq!(sampled.action(), Action::Report);
    let harness = sampled.step(Event::Reported);
    assert_eq!(harness, Harness::Reported);
    assert_eq!(harness.action(), Action::Exit);
    let harness = harness.step(Event::Clock(1));
    assert_eq!(harness, Harness::Reported);
}

#[test]
fn an_event_that_is_not_awaited_changes_nothing() {
    assert_eq!(Harness::Start.step(Event::Clock(3)), Harness::Start);
    assert_eq!(Harness::Start.step(Event::Answer(text("1"))), Harness::Start);
    assert_eq!(Harness::InputPrepared.step(Event::Clock(3)), Harness::InputPrepared);
    assert_eq!(Harness::InputPrepared.step(Event::InputReady), Harness::InputPrepared);
    assert_eq!(calling().step(Event::Clock(9)), calling());
    assert_eq!(warming().step(Event::Answer(text("15"))), warming());
    assert_eq!(warmed(7).step(Event::Reported), warmed(7));
    assert_eq!(sampled().step(Event::Clock(9)), sampled());
}

#[test]
fn errors_have_their_messages() {
    assert_eq!(
        BenchError::NonDeterministic.message(),
        "Solution returned two different answers on same input!"
    );
    assert_eq!(BenchError::Input(InputError::Missing).message(), "No input file provided");
    assert_eq!(
        BenchError::Input(InputError::InvalidEncoding).message(),
        "Input is not valid UTF-8"
    );
    assert_eq!(BenchError::Input(InputError::Allocation).message(), "can't align layout");
}
