use perf_testing::corpus::Corpus;
use perf_testing::outcome::{Completion, ErrorKind, Method, Outcome};
use perf_testing::user::{Directive, Policy, RequestPlan, VirtualUser, CONTENT_TYPE, JSON};

fn three_lines() -> Corpus {
    Corpus::load(Some(b"{\"a\":1}\n{\"a\":2}\n{\"a\":3}\n")).unwrap()
}

fn plan_of(directive: Directive) -> RequestPlan {
    match directive {
        Directive::Send(plan) => plan,
        other => panic!("expected a request, got {:?}", other),
    }
}

#[test]
fn header_constants() {
    assert_eq!(CONTENT_TYPE, "Content-Type");
    assert_eq!(JSON, "application/json");
}

#[test]
fn a_request_is_a_put_of_the_payload_as_json() {
    let corpus = three_lines();
    let mut user = VirtualUser::new(4, Policy::Sequential, "/snowpipe/insert".to_string());
    let plan = plan_of(user.poll(&corpus, false, 0));
    assert_eq!(
        plan,
        RequestPlan {
            user: 4,
            payload: 0,
            method: Method::Put,
            path: "/snowpipe/insert".to_string(),
            content_type: "application/json",
            body: b"{\"a\":1}".to_vec(),
        }
    );
}

#[test]
fn the_sequential_policy_follows_the_corpus_and_starts_over() {
    let corpus = three_lines();
    let mut user = VirtualUser::new(0, Policy::Sequential, String::new());
    let mut sent = Vec::new();
    for draw in [9u64, 8, 7, 6, 5, 4, 3] {
        let plan = plan_of(user.poll(&corpus, false, draw));
        sent.push((plan.payload, plan.body));
        assert!(user.complete(Completion::Status(200), 1, 0).is_some());
    }
    assert_eq!(
        sent,
        vec![
            (0, b"{\"a\":1}".to_vec()),
            (1, b"{\"a\":2}".to_vec()),
            (2, b"{\"a\":3}".to_vec()),
            (0, b"{\"a\":1}".to_vec()),
            (1, b"{\"a\":2}".to_vec()),
            (2, b"{\"a\":3}".to_vec()),
            (0, b"{\"a\":1}".to_vec()),
        ]
    );
}

#[test]
fn the_random_policy_takes_the_payload_that_the_draw_falls_on() {
    let corpus = three_lines();
    let mut user = VirtualUser::new(0, Policy::Random, String::new());
    let mut sent = Vec::new();
    for draw in [5u64, 5, 0, 3, 7, u64::MAX] {
        let plan = plan_of(user.poll(&corpus, false, draw));
        sent.push(plan.payload);
        assert_eq!(plan.body, corpus.get(plan.payload).unwrap().clone());
        user.complete(Completion::Status(200), 1, 0);
    }
    assert_eq!(sent, vec![2, 2, 0, 0, 1, (u64::MAX % 3) as usize]);
}

#[test]
fn a_user_has_one_request_under_way_at_most() {
    let corpus = three_lines();
    let mut user = VirtualUser::new(0, Policy::Sequential, String::new());
    assert_eq!(user.in_flight(), None);
    plan_of(user.poll(&corpus, false, 0));
    assert_eq!(user.in_flight(), Some(0));
    assert_eq!(user.poll(&corpus, false, 0), Directive::Wait);
    assert_eq!(user.poll(&corpus, false, 0), Directive::Wait);
    assert_eq!(user.in_flight(), Some(0));
    user.complete(Completion::Status(200), 1, 0);
    assert_eq!(user.in_flight(), None);
    assert_eq!(plan_of(user.poll(&corpus, false, 0)).payload, 1);
}

#[test]
fn complete_hands_back_the_outcome_of_the_request_under_way() {
    let corpus = three_lines();
    let mut user = VirtualUser::new(11, Policy::Sequential, "/insert".to_string());
    plan_of(user.poll(&corpus, false, 0));
    user.complete(Completion::Status(200), 1, 0);
    plan_of(user.poll(&corpus, false, 0));
    let outcome = user.complete(Completion::Status(503), 42, 1_700_000_000_000).unwrap();
    assert_eq!(
        outcome,
        Outcome {
            user: 11,
            payload: 1,
            path: "/insert".to_string(),
            method: Method::Put,
            completion: Completion::Status(503),
            latency_ms: 42,
            timestamp_ms: 1_700_000_000_000,
        }
    );
}

#[test]
fn complete_with_no_request_under_way_gives_no_outcome() {
    let corpus = three_lines();
    let mut user = VirtualUser::new(0, Policy::Sequential, String::new());
    assert!(user.complete(Completion::Status(200), 1, 0).is_none());
    plan_of(user.poll(&corpus, false, 0));
    assert!(user.complete(Completion::Status(200), 1, 0).is_some());
    assert!(user.complete(Completion::Status(200), 1, 0).is_none());
    assert_eq!(plan_of(user.poll(&corpus, false, 0)).payload, 1);
}

#[test]
fn a_failed_request_does_not_stop_the_user() {
    let corpus = three_lines();
    let mut user = VirtualUser::new(0, Policy::Sequential, String::new());
    let failures = [
        Completion::Failed(ErrorKind::Timeout),
        Completion::Failed(ErrorKind::ConnectionRefused),
        Completion::Failed(ErrorKind::ConnectionReset),
        Completion::Failed(ErrorKind::MalformedResponse),
        Completion::Failed(ErrorKind::Other),
        Completion::Status(500),
    ];
    for (n, failure) in failures.into_iter().enumerate() {
        let plan = plan_of(user.poll(&corpus, false, 0));
        assert_eq!(plan.payload, n % 3);
        let outcome = user.complete(failure, 1, 0).unwrap();
        assert_eq!(outcome.completion, failure);
        assert!(!user.has_exited());
    }
}

#[test]
fn a_user_told_to_stop_exits() {
    let corpus = three_lines();
    let mut user = VirtualUser::new(0, Policy::Sequential, String::new());
    assert!(!user.has_exited());
    assert_eq!(user.poll(&corpus, true, 0), Directive::Exit);
    assert!(user.has_exited());
    assert_eq!(user.in_flight(), None);
}

#[test]
fn a_user_told_to_stop_finishes_its_request_first() {
    let corpus = three_lines();
    let mut user = VirtualUser::new(0, Policy::Sequential, String::new());
    plan_of(user.poll(&corpus, false, 0));
    assert_eq!(user.poll(&corpus, true, 0), Directive::Wait);
    assert!(!user.has_exited());
    assert_eq!(user.in_flight(), Some(0));
    let outcome = user.complete(Completion::Status(200), 3, 0).unwrap();
    assert_eq!(outcome.payload, 0);
    assert_eq!(user.poll(&corpus, true, 0), Directive::Exit);
    assert!(user.has_exited());
}

#[test]
fn a_user_that_has_exited_sends_nothing_more() {
    let corpus = three_lines();
    let mut user = VirtualUser::new(0, Policy::Sequential, String::new());
    assert_eq!(user.poll(&corpus, true, 0), Directive::Exit);
    assert_eq!(user.poll(&corpus, false, 0), Directive::Exit);
    assert_eq!(user.poll(&corpus, false, 1), Directive::Exit);
    assert!(user.complete(Completion::Status(200), 1, 0).is_none());
    assert!(user.has_exited());
}

#[test]
fn id_is_the_number_given() {
    let user = VirtualUser::new(usize::MAX, Policy::Random, "/".to_string());
    assert_eq!(user.id(), usize::MAX);
}

#[test]
fn a_corpus_of_one_payload_is_sent_again_and_again() {
    let corpus = Corpus::from_payloads(vec![b"[{\"a\":1,\"b\":\"rust\"}]".to_vec()]).unwrap();
    let mut user = VirtualUser::new(0, Policy::Sequential, "/snowpipe/insert".to_string());
    for _ in 0..4 {
        let plan = plan_of(user.poll(&corpus, false, 0));
        assert_eq!(plan.payload, 0);
        assert_eq!(plan.body, b"[{\"a\":1,\"b\":\"rust\"}]".to_vec());
        user.complete(Completion::Status(200), 1, 0);
    }
}
