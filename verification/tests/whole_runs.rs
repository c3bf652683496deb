use perf_testing::corpus::{Corpus, LoadError};
use perf_testing::metrics::Aggregator;
use perf_testing::outcome::{Completion, ErrorKind, Method, StatusClass};
use perf_testing::runner::{Command, Event, Phase, RunConfig, Runner};
use perf_testing::user::{Directive, Policy, VirtualUser};

/// Runs `users` virtual users in turn against a target that answers each
/// request as `answer` says, until each has sent `requests_each` requests,
/// then lets the duration pass. Hands back the runner once it has stopped,
/// and the bodies that were sent.
fn run_to_completion(
    corpus: &Corpus,
    users: usize,
    requests_each: usize,
    policy: Policy,
    answer: fn(usize) -> Completion,
) -> (Runner, Vec<Vec<u8>>) {
    let config = RunConfig { users, ramp_rate: 1_000, duration_ms: 10, policy };
    let mut runner = Runner::new(config, "/insert".to_string());
    let mut pool: Vec<usize> = Vec::new();
    let mut sent: Vec<Vec<u8>> = Vec::new();
    let mut clock = 0u64;
    let mut command = runner.step(Event::Start { now_ms: clock });
    loop {
        if let Command::Spawn { first, count } = command {
            pool.extend(first..first + count);
        }
        if runner.phase() != Phase::RampingUp {
            break;
        }
        clock += 1;
        command = runner.step(Event::Tick { now_ms: clock });
    }
    assert_eq!(runner.phase(), Phase::Steady);
    assert_eq!(pool, (0..users).collect::<Vec<usize>>());

    let mut attempt = 0usize;
    for _ in 0..requests_each {
        for &user in &pool {
            match runner.poll(user, corpus, attempt as u64) {
                Directive::Send(plan) => {
                    assert_eq!(plan.user, user);
                    sent.push(plan.body);
                    assert!(runner.complete(user, answer(attempt), 2, clock));
                    attempt += 1;
                }
                other => panic!("expected a request, got {:?}", other),
            }
        }
    }

    assert_eq!(runner.step(Event::Tick { now_ms: clock + 10 }), Command::Wait);
    assert_eq!(runner.phase(), Phase::RampingDown);
    for &user in &pool {
        assert_eq!(runner.poll(user, corpus, 0), Directive::Exit);
    }
    assert_eq!(runner.step(Event::Tick { now_ms: clock + 11 }), Command::Finish);
    assert_eq!(runner.phase(), Phase::Stopped);
    (runner, sent)
}

#[test]
fn three_lines_one_sequential_user_all_answered_200() {
    let corpus = Corpus::load(Some(b"{\"a\":1}\n{\"a\":2}\n{\"a\":3}")).unwrap();
    let (runner, sent) =
        run_to_completion(&corpus, 1, 3, Policy::Sequential, |_| Completion::Status(200));
    assert_eq!(
        sent,
        vec![b"{\"a\":1}".to_vec(), b"{\"a\":2}".to_vec(), b"{\"a\":3}".to_vec()]
    );
    let metrics = runner.snapshot();
    assert_eq!(metrics.successes(), 3);
    assert_eq!(metrics.failures(), 0);
    assert_eq!(metrics.total(), 3);
    assert_eq!(metrics.count(Method::Put, "/insert", StatusClass::Success), 3);
    assert_eq!(metrics.series_len(), 1);
}

#[test]
fn a_target_that_refuses_every_connection_gives_only_failures_and_a_clean_stop() {
    let corpus = Corpus::load(Some(b"{\"a\":1}\n{\"a\":2}\n{\"a\":3}\n")).unwrap();
    let (runner, sent) = run_to_completion(&corpus, 2, 4, Policy::Sequential, |_| {
        Completion::Failed(ErrorKind::ConnectionRefused)
    });
    assert_eq!(sent.len(), 8);
    assert_eq!(runner.phase(), Phase::Stopped);
    assert_eq!(runner.active(), 0);
    let metrics = runner.snapshot();
    assert_eq!(metrics.successes(), 0);
    assert_eq!(metrics.failures(), 8);
    assert_eq!(metrics.total(), 8);
    assert_eq!(metrics.count(Method::Put, "/insert", StatusClass::TransportError), 8);
    assert_eq!(metrics.series_len(), 1);
}

#[test]
fn a_missing_fixture_fails_before_any_user_is_started() {
    let config = RunConfig { users: 3, ramp_rate: 1, duration_ms: 1_000, policy: Policy::Sequential };
    let runner = Runner::new(config, "/insert".to_string());
    let loaded = Corpus::load(None);
    assert_eq!(loaded.unwrap_err(), LoadError::SourceUnreadable);
    assert_eq!(runner.phase(), Phase::Idle);
    assert_eq!(runner.started(), 0);
    assert_eq!(runner.snapshot().total(), 0);
}

#[test]
fn recorded_outcomes_equal_attempted_requests() {
    let corpus = Corpus::load(Some(b"one\ntwo\nthree\nfour\nfive\n")).unwrap();
    let (runner, sent) = run_to_completion(&corpus, 4, 7, Policy::Random, |attempt| {
        match attempt % 4 {
            0 => Completion::Status(200),
            1 => Completion::Status(404),
            2 => Completion::Failed(ErrorKind::Timeout),
            _ => Completion::Status(201),
        }
    });
    assert_eq!(sent.len(), 28);
    let metrics = runner.snapshot();
    assert_eq!(metrics.total(), 28);
    assert_eq!(metrics.successes(), 14);
    assert_eq!(metrics.failures(), 14);
    assert_eq!(metrics.count(Method::Put, "/insert", StatusClass::Success), 14);
    assert_eq!(metrics.count(Method::Put, "/insert", StatusClass::ClientError), 7);
    assert_eq!(metrics.count(Method::Put, "/insert", StatusClass::TransportError), 7);
}

#[test]
fn a_request_under_way_at_the_stop_signal_is_completed_and_counted() {
    let corpus = Corpus::load(Some(b"one\ntwo\n")).unwrap();
    let config = RunConfig { users: 2, ramp_rate: 1_000, duration_ms: 60_000, policy: Policy::Sequential };
    let mut runner = Runner::new(config, "/insert".to_string());
    runner.step(Event::Start { now_ms: 0 });
    runner.step(Event::Tick { now_ms: 1 });
    assert!(matches!(runner.poll(0, &corpus, 0), Directive::Send(_)));
    assert!(matches!(runner.poll(1, &corpus, 0), Directive::Send(_)));
    assert!(runner.complete(1, Completion::Status(200), 4, 2));
    runner.step(Event::StopSignal);
    assert_eq!(runner.phase(), Phase::RampingDown);
    assert_eq!(runner.poll(1, &corpus, 0), Directive::Exit);
    assert_eq!(runner.poll(0, &corpus, 0), Directive::Wait);
    assert_eq!(runner.step(Event::Tick { now_ms: 3 }), Command::Wait);
    assert_eq!(runner.phase(), Phase::RampingDown);
    assert_eq!(runner.snapshot().total(), 1);
    assert!(runner.complete(0, Completion::Failed(ErrorKind::ConnectionReset), 900, 4));
    assert_eq!(runner.poll(0, &corpus, 0), Directive::Exit);
    assert_eq!(runner.step(Event::Tick { now_ms: 5 }), Command::Finish);
    let metrics = runner.snapshot();
    assert_eq!(metrics.total(), 2);
    assert_eq!(metrics.successes(), 1);
    assert_eq!(metrics.failures(), 1);
}

#[test]
fn each_user_keeps_its_own_place_in_the_corpus() {
    let corpus = Corpus::load(Some(b"one\ntwo\nthree\n")).unwrap();
    let (_, sent) =
        run_to_completion(&corpus, 2, 4, Policy::Sequential, |_| Completion::Status(200));
    let expected: Vec<Vec<u8>> = ["one", "one", "two", "two", "three", "three", "one", "one"]
        .iter()
        .map(|line| line.as_bytes().to_vec())
        .collect();
    assert_eq!(sent, expected);
}

#[test]
fn shards_of_several_users_add_up_to_what_one_aggregator_would_hold() {
    let corpus = Corpus::load(Some(b"one\ntwo\n")).unwrap();
    let mut whole = Aggregator::new();
    let mut merged = Aggregator::new();
    for id in 0..3usize {
        let mut user = VirtualUser::new(id, Policy::Sequential, format!("/target/{}", id % 2));
        let mut shard = Aggregator::new();
        for attempt in 0..5u16 {
            match user.poll(&corpus, false, 0) {
                Directive::Send(_) => {}
                other => panic!("expected a request, got {:?}", other),
            }
            let outcome = user
                .complete(Completion::Status(200 + 100 * (attempt % 3)), u64::from(attempt), 0)
                .unwrap();
            whole.record(outcome.clone());
            shard.record(outcome);
        }
        merged.absorb(&shard.snapshot());
    }
    let metrics = merged.snapshot();
    assert_eq!(metrics.total(), 15);
    assert_eq!(metrics.successes(), 6);
    assert_eq!(metrics.failures(), 9);
    assert_eq!(metrics.count(Method::Put, "/target/0", StatusClass::Success), 4);
    assert_eq!(metrics.count(Method::Put, "/target/1", StatusClass::Success), 2);
    assert_eq!(metrics.count(Method::Put, "/target/0", StatusClass::Redirection), 4);
    assert_eq!(metrics.count(Method::Put, "/target/1", StatusClass::ClientError), 1);
    assert_eq!(metrics.total(), whole.snapshot().total());
    let all = whole.snapshot();
    for i in 0..metrics.series_len() {
        let series = metrics.series(i).unwrap();
        assert_eq!(all.find(series.method, &series.path, series.class), Some(series));
    }
}
